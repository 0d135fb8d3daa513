//! Writing a description and reading the document back.

use crate::encoding::{lemma_encode_avoids, lemma_encode_concat, lemma_encode_first, lemma_scalar_bytes};
use crate::error::ErrorView;
use crate::patchedit::description::{
    abort_message, author_value, body_text, date_place, diff_lead, diff_part, document,
    header_line, header_text, padding, parse_spec, read_patchname, strip_line_feeds, untouched,
    Parsed, ParsedAuthor, PatchDescriptionView,
};
use crate::patchedit::laws::{is_line_text, lemma_line_text, lemma_scan_index_free};
use crate::patchedit::lines::{lemma_line_len, lemma_line_len_is, line_len, LINE_FEED};
use crate::patchedit::scan::{
    absorb, ends_with_blank_line, expected_header, finish_diff, finish_message, header_at,
    header_key, initial_state, read_line, scan_rest, scan_spec, sentinel, with_header, Header,
    Line, ScanState, Scanned, COMMENT_MARK,
};
use crate::patchname::is_patch_name;
use crate::signature::{
    git_accepts, is_banned, lemma_clean_is_kept, split_name_email, AuthorView, Time,
};
use crate::text::{
    all_ascii_whitespace, is_whitespace, lemma_position, lemma_position_is, lemma_trim_end_is,
    lemma_trim_is, lemma_trim_keeps, position, trim, trim_end,
};
use vstd::prelude::*;
use vstd::utf8::{
    char_u32_cast, encode_scalar, encode_utf8, encode_utf8_decode_utf8, encode_utf8_valid_utf8,
};

verus! {

/// Whether `s` holds no line feed.
pub open spec fn one_line(s: Seq<char>) -> bool {
    forall|i: int| 0 <= i < s.len() ==> #[trigger] s[i] != '\n'
}

/// Whether `v` reads back as the value of a header: it is one line that
/// neither begins nor ends with whitespace.
pub open spec fn is_header_value(v: Seq<char>) -> bool {
    &&& one_line(v)
    &&& v.len() > 0 ==> !is_whitespace(v[0]) && !is_whitespace(v.last())
}

/// The bytes of the line `body`, with its line feed.
pub open spec fn line_bytes(body: Seq<char>) -> Seq<u8> {
    encode_utf8(body.push('\n'))
}

/// A line feed is encoded as the line feed byte.
pub proof fn lemma_line_feed_bytes()
    ensures
        encode_utf8(seq!['\n']) == seq![LINE_FEED],
{
    let s = seq!['\n'];
    lemma_scalar_bytes('\n');
    assert(s.drop_first() =~= Seq::<char>::empty());
    assert(encode_utf8(s.drop_first()) =~= Seq::<u8>::empty());
    assert(encode_utf8(s) =~= encode_scalar(s[0] as u32) + encode_utf8(s.drop_first()));
    assert(encode_utf8(s) =~= seq![LINE_FEED]);
}

/// The bytes of a line, followed by any bytes, begin with that line as a
/// physical line, and the scan reads it by its first character and by its
/// text without trailing whitespace.
pub proof fn lemma_first_line(body: Seq<char>, x: Seq<u8>)
    requires
        one_line(body),
    ensures
        line_bytes(body).len() > 0,
        line_len(line_bytes(body) + x) == line_bytes(body).len(),
        (line_bytes(body) + x).take(line_bytes(body).len() as int) == line_bytes(body),
        (line_bytes(body) + x).skip(line_bytes(body).len() as int) == x,
        read_line(line_bytes(body)) == (if body.len() > 0 && body[0] == '#' {
            Line::Comment
        } else if trim_end(body) == sentinel() {
            Line::Sentinel
        } else {
            Line::Text(trim_end(body))
        }),
{
    let line = body.push('\n');
    let lb = encode_utf8(line);
    let eb = encode_utf8(body);
    assert(line =~= body + seq!['\n']);
    lemma_encode_concat(body, seq!['\n']);
    lemma_line_feed_bytes();
    assert(lb == eb + seq![LINE_FEED]);
    assert forall|i: int| 0 <= i < body.len() implies (#[trigger] body[i]) as u32
        != LINE_FEED as u32 by {
        assert(body[i] != '\n');
        char_u32_cast(body[i], body[i] as u32);
        char_u32_cast('\n', '\n' as u32);
    }
    lemma_encode_avoids(body, LINE_FEED);
    let bytes = lb + x;
    let n = lb.len() as int;
    assert(n == eb.len() + 1);
    assert forall|i: int| 0 <= i < n - 1 implies #[trigger] bytes[i] != LINE_FEED by {
        assert(bytes[i] == eb[i]);
    }
    assert(bytes[n - 1] == LINE_FEED);
    lemma_line_len_is(bytes, n);
    assert(bytes.take(n) =~= lb);
    assert(bytes.skip(n) =~= x);
    encode_utf8_valid_utf8(line);
    encode_utf8_decode_utf8(line);
    if body.len() > 0 {
        lemma_encode_first(line, COMMENT_MARK);
        assert(line[0] == body[0]);
        assert('#' as u32 == COMMENT_MARK as u32);
        char_u32_cast(body[0], body[0] as u32);
        char_u32_cast('#', '#' as u32);
    } else {
        assert(eb =~= Seq::<u8>::empty());
        assert(lb[0] == LINE_FEED);
    }
    assert(is_whitespace('\n'));
    assert(line.drop_last() =~= body);
    assert(trim_end(line) == trim_end(body));
}

/// The scan takes in a line that is neither comment nor sentinel.
pub proof fn lemma_scan_text_line(body: Seq<char>, x: Seq<u8>, index: int, st: ScanState)
    requires
        one_line(body),
        body.len() > 0 ==> body[0] != '#',
        trim_end(body) != sentinel(),
    ensures
        scan_rest(line_bytes(body) + x, index, st) == scan_rest(
            x,
            index + 1,
            absorb(st, index, trim_end(body)),
        ),
{
    lemma_first_line(body, x);
}

/// The scan passes over a comment line.
pub proof fn lemma_scan_comment_line(body: Seq<char>, x: Seq<u8>, index: int, st: ScanState)
    requires
        one_line(body),
        body.len() > 0,
        body[0] == '#',
    ensures
        scan_rest(line_bytes(body) + x, index, st) == scan_rest(x, index + 1, st),
{
    lemma_first_line(body, x);
}

/// The scan stops at the sentinel line and leaves what follows it.
pub proof fn lemma_scan_sentinel_line(x: Seq<u8>, index: int, st: ScanState)
    ensures
        scan_rest(line_bytes(sentinel()) + x, index, st) == Some((st, Some(x))),
{
    let body = sentinel();
    assert(body[0] == '-' && body[1] == '-' && body[2] == '-');
    lemma_trim_end_is(body, 3);
    assert(body.take(3) =~= body);
    lemma_first_line(body, x);
}

/// Whether every character of `pad` is whitespace.
pub open spec fn all_whitespace(pad: Seq<char>) -> bool {
    forall|i: int| 0 <= i < pad.len() ==> is_whitespace(#[trigger] pad[i])
}

/// A document whose first line is the sentinel, with or without whitespace
/// after it, is refused as left as it was, whatever follows that line.
pub proof fn lemma_sentinel_first_aborts(pad: Seq<char>, tail: Seq<u8>)
    requires
        one_line(pad),
        all_whitespace(pad),
    ensures
        parse_spec(line_bytes(sentinel() + pad) + tail) == Err::<Parsed, ErrorView>(
            ErrorView::Generic(abort_message()),
        ),
        parse_spec(encode_utf8(sentinel() + pad)) == Err::<Parsed, ErrorView>(
            ErrorView::Generic(abort_message()),
        ),
{
    let mark = sentinel();
    let body = mark + pad;
    assert(mark[0] == '-' && mark[1] == '-' && mark[2] == '-');
    assert(!is_whitespace('-'));
    assert forall|i: int| 0 <= i < body.len() implies #[trigger] body[i] != '\n' by {
        if i >= 3 {
            assert(body[i] == pad[i - 3]);
        }
    }
    assert forall|i: int| 3 <= i < body.len() implies is_whitespace(#[trigger] body[i]) by {
        assert(body[i] == pad[i - 3]);
    }
    lemma_trim_end_is(body, 3);
    assert(body.take(3) =~= mark);
    lemma_first_line(body, tail);
    lemma_scan_last_line(body, 0, initial_state());
    assert(finish_message(initial_state().message) =~= Seq::<char>::empty());
}

/// The index at which a header stands.
pub open spec fn header_index(header: Header) -> int {
    match header {
        Header::Patch => 0,
        Header::Author => 1,
        Header::Date => 2,
    }
}

/// The line of a header without its line feed.
pub open spec fn header_body(header: Header, value: Seq<char>) -> Seq<char> {
    header_key(header).push(':') + padding(header) + value
}

/// Whether every character of `pad` is a space.
pub open spec fn all_spaces(pad: Seq<char>) -> bool {
    forall|i: int| 0 <= i < pad.len() ==> #[trigger] pad[i] == ' '
}

/// Whether `key` can be the key of a header: it is not empty and holds no
/// colon and no line feed.
pub open spec fn is_key(key: Seq<char>) -> bool {
    &&& key.len() > 0
    &&& forall|i: int| 0 <= i < key.len() ==> #[trigger] key[i] != ':' && key[i] != '\n'
}

/// The characters of a key, a colon, spaces and a value.
proof fn lemma_keyed_shape(key: Seq<char>, pad: Seq<char>, value: Seq<char>)
    requires
        is_key(key),
        all_spaces(pad),
        one_line(value),
    ensures
        one_line(key.push(':') + pad + value),
        (key.push(':') + pad + value)[0] == key[0],
        (key.push(':') + pad + value).take(key.len() as int) == key,
        (key.push(':') + pad + value)[key.len() as int] == ':',
        (key.push(':') + pad + value).skip(key.len() as int + 1) == pad + value,
        forall|i: int| 0 <= i < key.len() ==> #[trigger] (key.push(':') + pad + value)[i] != ':',
{
    let body = key.push(':') + pad + value;
    let c = key.len() as int;
    assert(body.take(c) =~= key);
    assert(body.skip(c + 1) =~= pad + value);
    assert forall|i: int| 0 <= i < body.len() implies #[trigger] body[i] != '\n' by {
        if i < c {
            assert(body[i] == key[i]);
        } else if i == c {
        } else if i <= c + pad.len() {
            assert(body[i] == pad[i - c - 1]);
        } else {
            assert(body[i] == value[i - c - pad.len() - 1]);
        }
    }
    assert forall|i: int| 0 <= i < key.len() implies #[trigger] body[i] != ':' by {
        assert(body[i] == key[i]);
    }
}

/// A line of a key, a colon, spaces and a value that is one line without
/// whitespace around it is kept whole but for the spaces it may end with,
/// its first colon is the one after the key, and what follows that colon is
/// trimmed to the value.
proof fn lemma_keyed_line(key: Seq<char>, pad: Seq<char>, value: Seq<char>)
    requires
        is_key(key),
        all_spaces(pad),
        is_header_value(value),
    ensures
        trim_end(key.push(':') + pad + value).len() > key.len(),
        trim_end(key.push(':') + pad + value)[0] == key[0],
        position(trim_end(key.push(':') + pad + value), ':') == key.len(),
        trim_end(key.push(':') + pad + value).take(key.len() as int) == key,
        trim(trim_end(key.push(':') + pad + value).skip(key.len() as int + 1)) == value,
{
    let body = key.push(':') + pad + value;
    let c = key.len() as int;
    lemma_keyed_shape(key, pad, value);
    assert(is_whitespace(' '));
    assert(!is_whitespace(':'));
    let after = pad + value;
    assert forall|i: int| 0 <= i < pad.len() implies is_whitespace(#[trigger] after[i]) by {
        assert(after[i] == pad[i]);
    }
    if value.len() > 0 {
        assert(body.last() == value.last());
        lemma_trim_end_is(body, body.len() as int);
        assert(body.take(body.len() as int) =~= body);
        assert(after[pad.len() as int] == value[0]);
        assert(after[after.len() - 1] == value.last());
        lemma_trim_is(after, pad.len() as int, after.len() as int);
        assert(after.subrange(pad.len() as int, after.len() as int) =~= value);
        lemma_position_is(body, ':', c);
    } else {
        assert forall|i: int| c + 1 <= i < body.len() implies is_whitespace(#[trigger] body[i]) by {
            assert(body[i] == after[i - c - 1]);
        }
        lemma_trim_end_is(body, c + 1);
        let text = body.take(c + 1);
        assert(text.skip(c + 1) =~= Seq::<char>::empty());
        assert(trim(Seq::<char>::empty()) =~= value);
        assert forall|i: int| 0 <= i < c implies #[trigger] text[i] != ':' by {
            assert(text[i] == body[i]);
        }
        assert(text[c] == ':');
        lemma_position_is(text, ':', c);
        assert(text.take(c) =~= key);
        assert(text[0] == body[0]);
    }
}

/// The keys of the headers are keys that begin with a letter, and their
/// paddings are spaces.
proof fn lemma_header_key(header: Header)
    ensures
        is_key(header_key(header)),
        all_spaces(padding(header)),
        header_key(header)[0] != '#',
        header_key(header)[0] != '-',
        expected_header(header_index(header)) == Some(header),
{
    let key = header_key(header);
    match header {
        Header::Patch => {
            assert(key[0] == 'P' && key[1] == 'a' && key[2] == 't' && key[3] == 'c' && key[4]
                == 'h');
        },
        Header::Author => {
            assert(key[0] == 'A' && key[1] == 'u' && key[2] == 't' && key[3] == 'h' && key[4]
                == 'o' && key[5] == 'r');
        },
        Header::Date => {
            assert(key[0] == 'D' && key[1] == 'a' && key[2] == 't' && key[3] == 'e');
        },
    }
}

/// The line of a header with a value that is one line, without whitespace
/// around it, sets that header to that value when it stands at the index of
/// the header.
pub proof fn lemma_header_body(header: Header, value: Seq<char>)
    requires
        is_header_value(value),
    ensures
        header_line(header, value) == header_body(header, value).push('\n'),
        one_line(header_body(header, value)),
        header_body(header, value).len() > 0,
        header_body(header, value)[0] != '#',
        trim_end(header_body(header, value)) != sentinel(),
        header_at(header_index(header), trim_end(header_body(header, value))) == Some(
            (header, value),
        ),
{
    let key = header_key(header);
    let pad = padding(header);
    let body = header_body(header, value);
    assert(header_line(header, value) =~= body.push('\n'));
    lemma_header_key(header);
    lemma_keyed_shape(key, pad, value);
    lemma_keyed_line(key, pad, value);
    assert(sentinel()[0] == '-');
}

/// Whether `line` can stand in a message: it is not empty, does not end in
/// whitespace, is no comment and is not the sentinel.
pub open spec fn is_message_line(line: Seq<char>) -> bool {
    &&& line.len() > 0
    &&& line[0] != '#'
    &&& !is_whitespace(line.last())
    &&& line != sentinel()
}

/// Whether `text` can end a message, after a blank line or not: its lines
/// end with line feeds, those that are not blank can stand in a message, no
/// blank line follows a blank line, and the last line is not blank.
pub open spec fn is_message_tail(text: Seq<char>, after_blank: bool) -> bool
    decreases text.len(),
    via is_message_tail_decreases
{
    if text.len() == 0 {
        !after_blank
    } else {
        let p = position(text, '\n');
        if p >= text.len() {
            false
        } else if p == 0 {
            !after_blank && is_message_tail(text.skip(1), true)
        } else {
            is_message_line(text.take(p)) && is_message_tail(text.skip(p + 1), false)
        }
    }
}

#[via_fn]
proof fn is_message_tail_decreases(text: Seq<char>, after_blank: bool) {
    lemma_position(text, '\n');
}

/// Whether `m` is a message as a scan hands it out: it is empty, or its
/// lines end with line feeds, none of them ends in whitespace, is a comment
/// or is the sentinel, and a blank line stands only between two lines that
/// are not blank.
pub open spec fn is_message(m: Seq<char>) -> bool {
    m.len() == 0 || is_message_tail(m, true)
}

/// Text whose first line ends with a line feed is that line, the line feed
/// and the rest, and is encoded as the bytes of the line and of the rest.
pub proof fn lemma_split_line(text: Seq<char>)
    requires
        position(text, '\n') < text.len(),
    ensures
        one_line(text.take(position(text, '\n'))),
        text == text.take(position(text, '\n')).push('\n') + text.skip(position(text, '\n') + 1),
        encode_utf8(text) == line_bytes(text.take(position(text, '\n'))) + encode_utf8(
            text.skip(position(text, '\n') + 1),
        ),
{
    lemma_position(text, '\n');
    let p = position(text, '\n');
    let line = text.take(p);
    let rest = text.skip(p + 1);
    assert forall|i: int| 0 <= i < line.len() implies #[trigger] line[i] != '\n' by {
        assert(line[i] == text[i]);
    }
    assert(text =~= line.push('\n') + rest);
    lemma_encode_concat(line.push('\n'), rest);
}

/// The scan of the lines of a message, in the message, adds them to the
/// message as they are.
pub proof fn lemma_scan_message(text: Seq<char>, x: Seq<u8>, index: int, st: ScanState)
    requires
        st.in_message,
        is_message_tail(text, st.after_blank),
    ensures
        scan_rest(encode_utf8(text) + x, index, st) == scan_rest(
            x,
            index,
            ScanState { message: st.message + text, after_blank: false, ..st },
        ),
    decreases text.len(),
{
    let end = ScanState { message: st.message + text, after_blank: false, ..st };
    if text.len() == 0 {
        assert(encode_utf8(text) + x =~= x);
        assert(st.message + text =~= st.message);
        assert(end == st);
    } else {
        lemma_position(text, '\n');
        let p = position(text, '\n');
        let line = text.take(p);
        let rest = text.skip(p + 1);
        lemma_split_line(text);
        let y = encode_utf8(rest) + x;
        assert(encode_utf8(text) + x =~= line_bytes(line) + y);
        assert(sentinel().len() == 3);
        if p == 0 {
            assert(line =~= Seq::<char>::empty());
            assert(trim_end(line) =~= line);
            lemma_scan_text_line(line, y, index, st);
            let next = absorb(st, index, trim_end(line));
            assert(rest =~= text.skip(1));
            lemma_scan_message(rest, x, index + 1, next);
            assert(next.message + rest =~= st.message + text);
            lemma_scan_index_free(x, index + 1, index, end);
        } else {
            assert(line.last() == text[p - 1]);
            lemma_trim_end_is(line, p);
            assert(line.take(p) =~= line);
            lemma_scan_text_line(line, y, index, st);
            let next = absorb(st, index, line);
            lemma_scan_message(rest, x, index + 1, next);
            assert(next.message + rest =~= st.message + text);
            lemma_scan_index_free(x, index + 1, index, end);
        }
    }
}

/// The first line feed of a text is the first line feed of any text that
/// this one begins.
pub proof fn lemma_position_prefix(t: Seq<char>, u: Seq<char>, c: char)
    requires
        position(t, c) < t.len(),
    ensures
        position(t + u, c) == position(t, c),
        (t + u).take(position(t, c)) == t.take(position(t, c)),
        (t + u).skip(position(t, c) + 1) == t.skip(position(t, c) + 1) + u,
{
    lemma_position(t, c);
    let p = position(t, c);
    assert forall|i: int| 0 <= i < p implies #[trigger] (t + u)[i] != c by {
        assert((t + u)[i] == t[i]);
    }
    assert((t + u)[p] == t[p]);
    lemma_position_is(t + u, c, p);
    assert((t + u).take(p) =~= t.take(p));
    assert((t + u).skip(p + 1) =~= t.skip(p + 1) + u);
}

/// Lines that can end a message after a line that is not blank can follow
/// the end of a message.
pub proof fn lemma_append_lines(t: Seq<char>, u: Seq<char>, after_blank: bool)
    requires
        t.len() > 0,
        is_message_tail(t, after_blank),
        is_message_tail(u, false),
    ensures
        is_message_tail(t + u, after_blank),
    decreases t.len(),
{
    lemma_position(t, '\n');
    let p = position(t, '\n');
    let rest = t.skip(p + 1);
    lemma_position_prefix(t, u, '\n');
    if p == 0 {
        assert(rest =~= t.skip(1));
        assert((t + u).skip(1) =~= rest + u);
    }
    if rest.len() > 0 {
        lemma_append_lines(rest, u, p == 0);
    } else {
        assert(!is_message_tail(rest, true));
        assert(rest + u =~= u);
    }
}

/// One line that can stand in a message, with its line feed, is a message.
pub proof fn lemma_single_line(line: Seq<char>, after_blank: bool)
    requires
        one_line(line),
        is_message_line(line),
    ensures
        is_message_tail(line.push('\n'), after_blank),
{
    let text = line.push('\n');
    let p = line.len() as int;
    assert forall|i: int| 0 <= i < p implies #[trigger] text[i] != '\n' by {
        assert(text[i] == line[i]);
    }
    lemma_position_is(text, '\n', p);
    assert(text.take(p) =~= line);
    assert(text.skip(p + 1) =~= Seq::<char>::empty());
    assert(is_message_tail(text.skip(p + 1), false));
}

/// The message of a state without the line feed of a blank line at its end.
pub open spec fn message_core(st: ScanState) -> Seq<char> {
    if st.after_blank && st.message.len() > 0 {
        st.message.drop_last()
    } else {
        st.message
    }
}

/// What holds of the message of the state between two lines: but for the
/// line feed of a blank line at its end, it is a message.
pub open spec fn well_read(st: ScanState) -> bool {
    &&& !st.in_message ==> st.message.len() == 0 && !st.after_blank
    &&& st.in_message && !st.after_blank ==> st.message.len() > 0
    &&& is_message(message_core(st))
    &&& st.after_blank && st.message.len() > 0 ==> st.message.last() == '\n' && message_core(
        st,
    ).len() > 0
}

/// The message stays well read when the state takes in a line.
pub proof fn lemma_absorb_well_read(st: ScanState, index: int, text: Seq<char>)
    requires
        well_read(st),
        is_line_text(text),
        text != sentinel(),
    ensures
        well_read(absorb(st, index, text)),
{
    let m = st.message;
    let next = absorb(st, index, text);
    if text.len() > 0 && (st.in_message || header_at(index, text) is None) {
        let line = text.push('\n');
        assert(one_line(text));
        assert(is_message_line(text));
        assert(next.message == (m + text).push('\n'));
        assert((m + text).push('\n') =~= m + line);
        if m.len() == 0 {
            lemma_single_line(text, true);
            assert(m + line =~= line);
        } else if st.after_blank {
            let core = m.drop_last();
            let more = seq!['\n'] + line;
            lemma_single_line(text, true);
            assert(position(more, '\n') == 0);
            assert(more.skip(1) =~= line);
            assert(is_message_tail(more, false));
            lemma_append_lines(core, more, true);
            assert(m =~= core.push('\n'));
            assert(m + line =~= core + more);
        } else {
            lemma_single_line(text, false);
            lemma_append_lines(m, line, true);
        }
    } else if st.in_message && text.len() == 0 && !st.after_blank {
        assert(next.message == m.push('\n'));
        assert(m.push('\n').drop_last() =~= m);
    } else {
        assert(next.message == m);
    }
}

/// A scan that starts with a well-read message ends with one.
pub proof fn lemma_scan_well_read(rest: Seq<u8>, index: int, st: ScanState)
    requires
        well_read(st),
    ensures
        scan_rest(rest, index, st) matches Some((end, _)) ==> well_read(end),
    decreases rest.len(),
{
    if rest.len() > 0 {
        lemma_line_len(rest);
        let n = line_len(rest);
        let line = rest.take(n);
        assert forall|k: int| 0 <= k < line.len() - 1 implies #[trigger] line[k] != LINE_FEED by {
            assert(line[k] == rest[k]);
        }
        lemma_line_text(line);
        match read_line(line) {
            Line::Comment => {
                lemma_scan_well_read(rest.skip(n), index + 1, st);
            },
            Line::Text(text) => {
                lemma_absorb_well_read(st, index, text);
                lemma_scan_well_read(rest.skip(n), index + 1, absorb(st, index, text));
            },
            _ => {},
        }
    }
}

/// Every message that a scan hands out is a message that can be written
/// and read again as it is.
pub proof fn lemma_scanned_message(buf: Seq<u8>)
    ensures
        scan_spec(buf) matches Some(s) ==> is_message(s.message),
{
    lemma_scan_well_read(buf, 0, initial_state());
    match scan_rest(buf, 0, initial_state()) {
        Some((st, _)) => {
            let m = st.message;
            let core = message_core(st);
            if m.len() > 0 {
                if st.after_blank {
                    lemma_message_end(core, true);
                    assert(core.last() == m[m.len() - 2]);
                    assert(ends_with_blank_line(m));
                } else {
                    lemma_message_end(m, true);
                    assert(is_whitespace('\n'));
                    assert(!ends_with_blank_line(m));
                }
            }
        },
        None => {},
    }
}

/// The end of a message is a character that is no whitespace, and one line
/// feed.
pub proof fn lemma_message_end(text: Seq<char>, after_blank: bool)
    requires
        text.len() > 0,
        is_message_tail(text, after_blank),
    ensures
        text.len() >= 2,
        text.last() == '\n',
        !is_whitespace(text[text.len() - 2]),
    decreases text.len(),
{
    lemma_position(text, '\n');
    let p = position(text, '\n');
    let rest = text.skip(p + 1);
    if rest.len() > 0 {
        lemma_message_end(rest, p == 0);
        assert(rest.last() == text.last());
        assert(rest[rest.len() - 2] == text[text.len() - 2]);
    } else {
        if p == 0 {
            assert(rest =~= text.skip(1));
            assert(!is_message_tail(rest, true));
        }
        assert(text.take(p).last() == text[p - 1]);
    }
}

/// A message that is not empty ends with one line feed, and is not trimmed
/// to nothing.
pub proof fn lemma_strip_message(m: Seq<char>)
    requires
        m.len() > 0,
        is_message(m),
    ensures
        strip_line_feeds(m).push('\n') == m,
        finish_message(m.push('\n')) == m,
{
    lemma_message_end(m, true);
    assert(is_whitespace('\n'));
    let front = m.drop_last();
    assert(front.last() == m[m.len() - 2]);
    assert(strip_line_feeds(front) == front);
    assert(strip_line_feeds(m) == front);
    assert(front.push('\n') =~= m);
    lemma_trim_keeps(m, m.len() - 2);
    let longer = m.push('\n');
    assert(longer[longer.len() - 2] == m.last());
    assert(ends_with_blank_line(longer));
    assert(longer.drop_last() =~= m);
}

/// Whether every line of `text` is a comment or blank, and ends with a
/// line feed.
pub open spec fn is_skipped(text: Seq<char>) -> bool
    decreases text.len(),
    via is_skipped_decreases
{
    if text.len() == 0 {
        true
    } else {
        let p = position(text, '\n');
        if p >= text.len() {
            false
        } else {
            (text[0] == '#' || trim_end(text.take(p)).len() == 0) && is_skipped(text.skip(p + 1))
        }
    }
}

#[via_fn]
proof fn is_skipped_decreases(text: Seq<char>) {
    lemma_position(text, '\n');
}

/// Whether every line of `text` is a comment or blank; the last line may
/// lack its line feed.
pub open spec fn is_skipped_end(text: Seq<char>) -> bool
    decreases text.len(),
    via is_skipped_end_decreases
{
    if text.len() == 0 {
        true
    } else {
        let p = position(text, '\n');
        if p >= text.len() {
            text[0] == '#' || trim_end(text).len() == 0
        } else {
            (text[0] == '#' || trim_end(text.take(p)).len() == 0) && is_skipped_end(
                text.skip(p + 1),
            )
        }
    }
}

#[via_fn]
proof fn is_skipped_end_decreases(text: Seq<char>) {
    lemma_position(text, '\n');
}

/// The scan of a last line without line feed: a comment is passed over, the
/// sentinel opens an empty diff, and any other line is taken in.
pub proof fn lemma_scan_last_line(body: Seq<char>, index: int, st: ScanState)
    requires
        one_line(body),
        body.len() > 0,
    ensures
        scan_rest(encode_utf8(body), index, st) == (if body[0] == '#' {
            Some((st, None::<Seq<u8>>))
        } else if trim_end(body) == sentinel() {
            Some((st, Some(Seq::<u8>::empty())))
        } else {
            Some((absorb(st, index, trim_end(body)), None::<Seq<u8>>))
        }),
{
    let bytes = encode_utf8(body);
    assert forall|i: int| 0 <= i < body.len() implies (#[trigger] body[i]) as u32
        != LINE_FEED as u32 by {
        assert(body[i] != '\n');
        char_u32_cast(body[i], body[i] as u32);
        char_u32_cast('\n', '\n' as u32);
    }
    lemma_encode_avoids(body, LINE_FEED);
    lemma_encode_first(body, COMMENT_MARK);
    assert('#' as u32 == COMMENT_MARK as u32);
    char_u32_cast(body[0], body[0] as u32);
    char_u32_cast('#', '#' as u32);
    let n = bytes.len() as int;
    lemma_line_len_is(bytes, n);
    assert(bytes.take(n) =~= bytes);
    assert(bytes.skip(n) =~= Seq::<u8>::empty());
    encode_utf8_valid_utf8(body);
    encode_utf8_decode_utf8(body);
    assert(scan_rest(bytes.skip(n), index + 1, st) == Some((st, None::<Seq<u8>>)));
    assert(scan_rest(bytes.skip(n), index + 1, absorb(st, index, trim_end(body))) == Some(
        (absorb(st, index, trim_end(body)), None::<Seq<u8>>),
    ));
}

/// In the message and after a blank line, the scan of lines that are
/// comments or blank, up to the end of the document, changes nothing.
pub proof fn lemma_scan_skipped_end(text: Seq<char>, index: int, st: ScanState)
    requires
        st.in_message,
        st.after_blank,
        is_skipped_end(text),
    ensures
        scan_rest(encode_utf8(text), index, st) == Some((st, None::<Seq<u8>>)),
    decreases text.len(),
{
    if text.len() == 0 {
        assert(encode_utf8(text) =~= Seq::<u8>::empty());
    } else {
        lemma_position(text, '\n');
        let p = position(text, '\n');
        assert(sentinel().len() == 3);
        if p >= text.len() {
            lemma_scan_last_line(text, index, st);
            if text[0] != '#' {
                assert(absorb(st, index, trim_end(text)) == st);
            }
        } else {
            let line = text.take(p);
            let rest = text.skip(p + 1);
            lemma_split_line(text);
            let y = encode_utf8(rest);
            if text[0] == '#' {
                assert(p > 0);
                assert(line[0] == text[0]);
                lemma_scan_comment_line(line, y, index, st);
            } else {
                if p > 0 {
                    assert(line[0] == text[0]);
                }
                lemma_scan_text_line(line, y, index, st);
                assert(absorb(st, index, trim_end(line)) == st);
            }
            lemma_scan_skipped_end(rest, index + 1, st);
        }
    }
}

/// In the message and after a blank line, the scan passes over lines that
/// are comments or blank.
pub proof fn lemma_scan_skipped(text: Seq<char>, x: Seq<u8>, index: int, st: ScanState)
    requires
        st.in_message,
        st.after_blank,
        is_skipped(text),
    ensures
        scan_rest(encode_utf8(text) + x, index, st) == scan_rest(x, index, st),
    decreases text.len(),
{
    if text.len() == 0 {
        assert(encode_utf8(text) + x =~= x);
    } else {
        lemma_position(text, '\n');
        let p = position(text, '\n');
        let line = text.take(p);
        let rest = text.skip(p + 1);
        lemma_split_line(text);
        let y = encode_utf8(rest) + x;
        assert(encode_utf8(text) + x =~= line_bytes(line) + y);
        if text[0] == '#' {
            assert(p > 0);
            assert(line[0] == text[0]);
            lemma_scan_comment_line(line, y, index, st);
        } else {
            if p > 0 {
                assert(line[0] == text[0]);
            }
            assert(sentinel().len() == 3);
            lemma_scan_text_line(line, y, index, st);
            assert(absorb(st, index, trim_end(line)) == st);
        }
        lemma_scan_skipped(rest, x, index + 1, st);
        lemma_scan_index_free(x, index + 1, index, st);
    }
}

/// The state after the three headers.
pub open spec fn headers_state(name: Seq<char>, author: Seq<char>, date: Seq<char>) -> ScanState {
    ScanState {
        patchname: Some(name),
        author: Some(author),
        authdate: Some(date),
        in_message: false,
        after_blank: false,
        message: Seq::empty(),
    }
}

/// The scan of three header lines whose values read back as they are sets
/// the three headers.
pub proof fn lemma_scan_headers(name: Seq<char>, author: Seq<char>, date: Seq<char>, x: Seq<u8>)
    requires
        is_header_value(name),
        is_header_value(author),
        is_header_value(date),
    ensures
        scan_rest(
            encode_utf8(
                header_line(Header::Patch, name) + header_line(Header::Author, author)
                    + header_line(Header::Date, date),
            ) + x,
            0,
            initial_state(),
        ) == scan_rest(x, 3, headers_state(name, author, date)),
{
    let b1 = header_body(Header::Patch, name);
    let b2 = header_body(Header::Author, author);
    let b3 = header_body(Header::Date, date);
    lemma_header_body(Header::Patch, name);
    lemma_header_body(Header::Author, author);
    lemma_header_body(Header::Date, date);
    let l1 = header_line(Header::Patch, name);
    let l2 = header_line(Header::Author, author);
    let l3 = header_line(Header::Date, date);
    lemma_encode_concat(l1 + l2, l3);
    lemma_encode_concat(l1, l2);
    let y2 = line_bytes(b3) + x;
    let y1 = line_bytes(b2) + y2;
    assert(encode_utf8(l1 + l2 + l3) + x =~= line_bytes(b1) + y1);
    let s0 = initial_state();
    lemma_scan_text_line(b1, y1, 0, s0);
    let s1 = absorb(s0, 0, trim_end(b1));
    assert(s1 == with_header(s0, Header::Patch, name));
    lemma_scan_text_line(b2, y2, 1, s1);
    let s2 = absorb(s1, 1, trim_end(b2));
    assert(s2 == with_header(s1, Header::Author, author));
    lemma_scan_text_line(b3, x, 2, s2);
    let s3 = absorb(s2, 2, trim_end(b3));
    assert(s3 == with_header(s2, Header::Date, date));
    assert(s3 == headers_state(name, author, date));
}

/// The patch name that the document carries: the empty one where the
/// description has none.
pub open spec fn name_value(d: PatchDescriptionView) -> Seq<char> {
    match d.patchname {
        Some(name) => name,
        None => Seq::empty(),
    }
}

/// What the document carries between the blank line after the message and
/// the sentinel line, or the end: the instruction, and before a diff the
/// instruction for the diff.
pub open spec fn lead_text(d: PatchDescriptionView) -> Seq<char> {
    (match d.instruction {
        Some(text) => text,
        None => Seq::empty(),
    }) + (if d.diff is Some {
        diff_lead(d)
    } else {
        Seq::empty()
    })
}

/// What the document carries after the lines before the sentinel: the
/// sentinel line and the diff, or nothing.
pub open spec fn tail_bytes(d: PatchDescriptionView) -> Seq<u8> {
    match d.diff {
        Some(bytes) => line_bytes(sentinel()) + bytes,
        None => Seq::empty(),
    }
}

/// The document after its headers is a blank line, the message with one
/// line feed at its end, a blank line, the lines before the sentinel, and
/// the sentinel line with the diff if there is one.
pub proof fn lemma_body_bytes(d: PatchDescriptionView)
    ensures
        encode_utf8(body_text(d)) + diff_part(d) == line_bytes(Seq::empty()) + (encode_utf8(
            strip_line_feeds(d.message).push('\n'),
        ) + (line_bytes(Seq::empty()) + (encode_utf8(lead_text(d)) + tail_bytes(d)))),
{
    let blank = seq!['\n'];
    let instruction = match d.instruction {
        Some(text) => text,
        None => Seq::<char>::empty(),
    };
    let message = strip_line_feeds(d.message).push('\n');
    assert(Seq::<char>::empty().push('\n') =~= blank);
    assert(body_text(d) =~= ((blank + message) + blank) + instruction);
    lemma_encode_concat((blank + message) + blank, instruction);
    lemma_encode_concat(blank + message, blank);
    lemma_encode_concat(blank, message);
    match d.diff {
        Some(bytes) => {
            lemma_encode_concat(diff_lead(d), sentinel().push('\n'));
            lemma_encode_concat(instruction, diff_lead(d));
            assert(encode_utf8(body_text(d)) + diff_part(d) =~= encode_utf8(blank) + (encode_utf8(
                message,
            ) + (encode_utf8(blank) + (encode_utf8(lead_text(d)) + tail_bytes(d)))));
        },
        None => {
            assert(lead_text(d) =~= instruction);
            assert(encode_utf8(body_text(d)) + diff_part(d) =~= encode_utf8(blank) + (encode_utf8(
                message,
            ) + (encode_utf8(blank) + (encode_utf8(lead_text(d)) + tail_bytes(d)))));
        },
    }
}

/// Whether the document of `d` tells `d` again: the patch name, if there is
/// one, follows the grammar; there is an author, whose name and email are
/// as git keeps them, each one line, and whose name neither begins nor ends
/// with whitespace; the message is as a scan hands it out; the instructions
/// that are written are comments or blank lines, and before a diff the last
/// of them ends with a line feed; and the diff, if there is one, is not
/// whitespace alone.
pub open spec fn round_trips(d: PatchDescriptionView) -> bool {
    &&& d.patchname matches Some(name) ==> is_patch_name(name)
    &&& d.author is Some
    &&& d.author->0.wf()
    &&& one_line(d.author->0.name)
    &&& one_line(d.author->0.email)
    &&& !is_whitespace(d.author->0.name[0])
    &&& !is_whitespace(d.author->0.name.last())
    &&& is_message(d.message)
    &&& if d.diff is Some {
        is_skipped(lead_text(d))
    } else {
        is_skipped_end(lead_text(d))
    }
    &&& d.diff matches Some(bytes) ==> !all_ascii_whitespace(bytes)
}

/// The scan of the document of a description that round-trips finds the
/// patch name, the author value and the date as they were written, and the
/// message and the diff as they are.
pub proof fn lemma_scan_document(d: PatchDescriptionView, date: Seq<char>)
    requires
        round_trips(d),
        is_header_value(date),
    ensures
        scan_spec(document(d, date)) == Some(
            Scanned {
                patchname: Some(name_value(d)),
                author: Some(author_value(d.author->0)),
                authdate: Some(date),
                message: d.message,
                diff: d.diff,
            },
        ),
{
    let a = d.author->0;
    let name = name_value(d);
    let author = author_value(a);
    assert(is_header_value(name)) by {
        assert(is_whitespace('\n'));
        if name.len() > 0 {
            assert(!is_whitespace(name[0]) && !is_whitespace(name[name.len() - 1]));
        }
    }
    assert(is_header_value(author)) by {
        assert(!is_whitespace('>'));
        assert(author[0] == a.name[0]);
        assert(author.last() == '>');
        assert forall|i: int| 0 <= i < author.len() implies #[trigger] author[i] != '\n' by {
            if i < a.name.len() {
                assert(author[i] == a.name[i]);
            } else if i < a.name.len() + 2 {
            } else if i < a.name.len() + 2 + a.email.len() {
                assert(author[i] == a.email[i - a.name.len() - 2]);
            }
        }
    }
    let rest = encode_utf8(body_text(d)) + diff_part(d);
    lemma_encode_concat(header_text(d, date), body_text(d));
    assert(document(d, date) =~= encode_utf8(header_text(d, date)) + rest);
    lemma_scan_headers(name, author, date, rest);
    lemma_body_bytes(d);
    let blank = Seq::<char>::empty();
    let message = strip_line_feeds(d.message).push('\n');
    let y3 = encode_utf8(lead_text(d)) + tail_bytes(d);
    let y2 = line_bytes(blank) + y3;
    let y1 = encode_utf8(message) + y2;
    let s0 = headers_state(name, author, date);
    assert(sentinel().len() == 3);
    assert(trim_end(blank) =~= blank);
    lemma_position(blank, ':');
    lemma_scan_text_line(blank, y1, 3, s0);
    let s1 = ScanState { in_message: true, after_blank: true, ..s0 };
    assert(absorb(s0, 3, blank) == s1);
    let s2 = ScanState { message: finish_raw(d.message), ..s1 };
    if d.message.len() > 0 {
        lemma_strip_message(d.message);
        lemma_scan_message(d.message, y2, 4, s1);
        let mid = ScanState { message: s1.message + d.message, after_blank: false, ..s1 };
        assert(s1.message + d.message =~= d.message);
        lemma_scan_text_line(blank, y3, 4, mid);
        assert(absorb(mid, 4, blank) == s2);
        lemma_scan_index_free(y3, 5, 4, s2);
    } else {
        assert(strip_line_feeds(d.message) =~= blank);
        assert(message =~= blank.push('\n'));
        lemma_scan_text_line(blank, y2, 4, s1);
        assert(absorb(s1, 4, blank) == s1);
        lemma_scan_text_line(blank, y3, 5, s1);
        assert(absorb(s1, 5, blank) == s1);
        lemma_scan_index_free(y3, 6, 4, s1);
        assert(s2 == s1);
        assert(finish_message(s2.message) =~= d.message);
    }
    assert(scan_rest(document(d, date), 0, initial_state()) == scan_rest(y3, 4, s2));
    match d.diff {
        Some(bytes) => {
            lemma_scan_skipped(lead_text(d), tail_bytes(d), 4, s2);
            lemma_scan_sentinel_line(bytes, 4, s2);
        },
        None => {
            assert(y3 =~= encode_utf8(lead_text(d)));
            lemma_scan_skipped_end(lead_text(d), 4, s2);
        },
    }
    assert(finish_message(s2.message) == d.message);
    assert(finish_diff(d.diff) == d.diff);
}

/// The message of the scan before it is handed out, for the message `m` of
/// a description: `m` and the line feed of the blank line after it, or
/// nothing.
pub open spec fn finish_raw(m: Seq<char>) -> Seq<char> {
    if m.len() > 0 {
        m.push('\n')
    } else {
        m
    }
}

/// The value of the `Author` header that is written for a clean name and a
/// clean email splits into that name and that email.
pub proof fn lemma_split_author(a: AuthorView)
    requires
        a.wf(),
        !is_whitespace(a.name[0]),
        !is_whitespace(a.name.last()),
    ensures
        split_name_email(author_value(a)) == Some((a.name, a.email)),
{
    let text = author_value(a);
    let n = a.name.len() as int;
    assert(!is_whitespace('>') && is_whitespace(' '));
    assert(text[0] == a.name[0]);
    assert(text.last() == '>');
    lemma_trim_is(text, 0, text.len() as int);
    assert(text.subrange(0, text.len() as int) =~= text);
    let value = trim(text);
    assert forall|i: int| 0 <= i < n + 1 implies #[trigger] value[i] != '<' by {
        if i < n {
            assert(value[i] == a.name[i]);
            assert(!is_banned(a.name[i]));
        }
    }
    assert(value[n + 1] == '<');
    lemma_position_is(value, '<', n + 1);
    let rest = value.skip(n + 2);
    assert(rest =~= a.email.push('>'));
    assert forall|i: int| 0 <= i < a.email.len() implies #[trigger] rest[i] != '>' by {
        assert(rest[i] == a.email[i]);
        assert(!is_banned(a.email[i]));
    }
    lemma_position_is(rest, '>', a.email.len() as int);
    assert(rest.take(a.email.len() as int) =~= a.email);
    let front = value.take(n + 1);
    assert(front =~= a.name.push(' '));
    assert(front[0] == a.name[0]);
    assert(front[n - 1] == a.name.last());
    lemma_trim_is(front, 0, n);
    assert(front.subrange(0, n) =~= a.name);
}

/// What the document of `d` tells when `date` is written as the date of the
/// author: the description again, with the time that `date` tells; or, if
/// `date` tells none, the error of the date.
pub open spec fn told_again(d: PatchDescriptionView, date: Seq<char>) -> Result<
    Parsed,
    ErrorView,
> {
    match Time::read(date) {
        Some(time) => Ok(
            Parsed {
                patchname: d.patchname,
                author: Some(
                    ParsedAuthor { name: d.author->0.name, email: d.author->0.email, time: Some(time) },
                ),
                message: d.message,
                diff: d.diff,
            },
        ),
        None => Err(ErrorView::InvalidDate(date, date_place())),
    }
}

/// Writing a description and reading the document gives the description
/// back: the patch name, the name and the email of the author, the message
/// and the diff as they were, and for the time of the author the time that
/// the written date tells.
pub proof fn lemma_round_trip(d: PatchDescriptionView, date: Seq<char>)
    requires
        round_trips(d),
        is_header_value(date),
    ensures
        parse_spec(document(d, date)) == told_again(d, date),
        Time::read(date) == Some(d.author->0.time) ==> parse_spec(document(d, date)) is Ok
            && parse_spec(document(d, date))->Ok_0.at(d.author->0.time) == (PatchDescriptionView {
            instruction: None,
            diff_instruction: None,
            ..d
        }),
{
    let a = d.author->0;
    lemma_scan_document(d, date);
    lemma_split_author(a);
    lemma_clean_is_kept(a.name);
    lemma_clean_is_kept(a.email);
    let s = scan_spec(document(d, date))->0;
    assert(!untouched(s));
    assert(read_patchname(s.patchname) == Ok::<Option<Seq<char>>, ErrorView>(d.patchname)) by {
        match d.patchname {
            Some(name) => {},
            None => {},
        }
    }
    assert(git_accepts(a.name, a.email));
}

} // verus!
