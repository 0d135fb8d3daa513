//! Scanning of a patch description document: one pass over its physical
//! lines, which gathers the headers and the message and finds the diff.

use crate::patchedit::lines::{lemma_line_len, line_end, line_len};
use crate::text::{
    all_ascii_whitespace, append_chars, chars_of, find_char, is_all_ascii_whitespace, position,
    string_of, text_of, trim, trim_end, trim_end_len, trimmed,
};
use vstd::prelude::*;
use vstd::slice::{slice_subrange, slice_to_vec};
use vstd::utf8::{decode_utf8, valid_utf8};

verus! {

/// The byte that opens a comment line.
pub const COMMENT_MARK: u8 = 0x23;

/// The text of the line that opens the diff.
pub open spec fn sentinel() -> Seq<char> {
    seq!['-', '-', '-']
}

/// What a physical line is to the scan.
pub enum Line {
    /// Its first byte is the comment mark.
    Comment,
    /// It is no comment and not valid UTF-8.
    Broken,
    /// It opens the diff.
    Sentinel,
    /// Any other line, by its text without trailing whitespace.
    Text(Seq<char>),
}

/// The three headers of a description.
#[derive(Clone, Copy, Debug)]
pub enum Header {
    Patch,
    Author,
    Date,
}

/// The key that introduces a header.
pub open spec fn header_key(header: Header) -> Seq<char> {
    match header {
        Header::Patch => seq!['P', 'a', 't', 'c', 'h'],
        Header::Author => seq!['A', 'u', 't', 'h', 'o', 'r'],
        Header::Date => seq!['D', 'a', 't', 'e'],
    }
}

/// The header that may stand at the physical line `index`.
pub open spec fn expected_header(index: int) -> Option<Header> {
    if index == 0 {
        Some(Header::Patch)
    } else if index == 1 {
        Some(Header::Author)
    } else if index == 2 {
        Some(Header::Date)
    } else {
        None
    }
}

/// How the scan reads the physical line `line`.
pub open spec fn read_line(line: Seq<u8>) -> Line {
    if line.len() > 0 && line[0] == COMMENT_MARK {
        Line::Comment
    } else if !valid_utf8(line) {
        Line::Broken
    } else {
        let text = trim_end(decode_utf8(line));
        if text == sentinel() {
            Line::Sentinel
        } else {
            Line::Text(text)
        }
    }
}

/// The header that the line `text` sets when it stands at the physical line
/// `index`, with the header's value: the line is `key: value` and `key` is
/// the one expected at that index.
pub open spec fn header_at(index: int, text: Seq<char>) -> Option<(Header, Seq<char>)> {
    let colon = position(text, ':');
    match expected_header(index) {
        Some(header) => if colon < text.len() && text.take(colon) == header_key(header) {
            Some((header, trim(text.skip(colon + 1))))
        } else {
            None
        },
        None => None,
    }
}

/// What the scan has gathered so far.
pub struct ScanState {
    pub patchname: Option<Seq<char>>,
    pub author: Option<Seq<char>>,
    pub authdate: Option<Seq<char>>,
    /// The message has begun: no header is recognized any more.
    pub in_message: bool,
    /// The last line taken into account was blank.
    pub after_blank: bool,
    pub message: Seq<char>,
}

/// The state before the first line.
pub open spec fn initial_state() -> ScanState {
    ScanState {
        patchname: None,
        author: None,
        authdate: None,
        in_message: false,
        after_blank: false,
        message: Seq::empty(),
    }
}

/// The state `st` with `header` set to `value`.
pub open spec fn with_header(st: ScanState, header: Header, value: Seq<char>) -> ScanState {
    match header {
        Header::Patch => ScanState { patchname: Some(value), ..st },
        Header::Author => ScanState { author: Some(value), ..st },
        Header::Date => ScanState { authdate: Some(value), ..st },
    }
}

/// The state after the line `text`, which is neither comment nor sentinel
/// and stands at the physical line `index`.
///
/// Before the message, a header at its place is recorded; any other line
/// begins the message, and a blank one is swallowed. In the message, a line
/// is appended with a line feed, and of a run of blank lines only the first
/// leaves a line feed.
pub open spec fn absorb(st: ScanState, index: int, text: Seq<char>) -> ScanState {
    if st.in_message {
        if text.len() == 0 {
            ScanState {
                message: if st.after_blank {
                    st.message
                } else {
                    st.message.push('\n')
                },
                after_blank: true,
                ..st
            }
        } else {
            ScanState { message: (st.message + text).push('\n'), after_blank: false, ..st }
        }
    } else {
        match header_at(index, text) {
            Some((header, value)) => with_header(st, header, value),
            None => if text.len() == 0 {
                ScanState { in_message: true, after_blank: true, ..st }
            } else {
                ScanState { in_message: true, message: (st.message + text).push('\n'), ..st }
            },
        }
    }
}

/// The scan of `rest`, whose first line is the physical line `index` of the
/// document, from the state `st`: the state at the end, and the bytes after
/// the sentinel line if one was reached. Nothing, if a line before the
/// sentinel is broken.
pub open spec fn scan_rest(rest: Seq<u8>, index: int, st: ScanState) -> Option<
    (ScanState, Option<Seq<u8>>),
>
    decreases rest.len(),
    via scan_rest_decreases
{
    if rest.len() == 0 {
        Some((st, None))
    } else {
        let n = line_len(rest);
        match read_line(rest.take(n)) {
            Line::Comment => scan_rest(rest.skip(n), index + 1, st),
            Line::Broken => None,
            Line::Sentinel => Some((st, Some(rest.skip(n)))),
            Line::Text(text) => scan_rest(rest.skip(n), index + 1, absorb(st, index, text)),
        }
    }
}

#[via_fn]
proof fn scan_rest_decreases(rest: Seq<u8>, index: int, st: ScanState) {
    lemma_line_len(rest);
}

/// Whether `message` ends with a blank line.
pub open spec fn ends_with_blank_line(message: Seq<char>) -> bool {
    message.len() >= 2 && message[message.len() - 1] == '\n' && message[message.len() - 2] == '\n'
}

/// The message as it is handed out: a blank line at its end is dropped, and
/// a message of whitespace alone is empty.
pub open spec fn finish_message(message: Seq<char>) -> Seq<char> {
    let cut = if ends_with_blank_line(message) {
        message.drop_last()
    } else {
        message
    };
    if trim(cut).len() == 0 {
        Seq::empty()
    } else {
        cut
    }
}

/// The diff that the bytes after the sentinel line make: none where there
/// is no sentinel or nothing but ASCII whitespace after it.
pub open spec fn finish_diff(tail: Option<Seq<u8>>) -> Option<Seq<u8>> {
    match tail {
        Some(bytes) => if all_ascii_whitespace(bytes) {
            None
        } else {
            Some(bytes)
        },
        None => None,
    }
}

/// What a scan yields.
pub struct Scanned {
    pub patchname: Option<Seq<char>>,
    pub author: Option<Seq<char>>,
    pub authdate: Option<Seq<char>>,
    pub message: Seq<char>,
    pub diff: Option<Seq<u8>>,
}

/// The scan of the document `buf`; nothing, if a line before the sentinel is
/// not valid UTF-8.
pub open spec fn scan_spec(buf: Seq<u8>) -> Option<Scanned> {
    match scan_rest(buf, 0, initial_state()) {
        Some((st, tail)) => Some(
            Scanned {
                patchname: st.patchname,
                author: st.author,
                authdate: st.authdate,
                message: finish_message(st.message),
                diff: finish_diff(tail),
            },
        ),
        None => None,
    }
}

/// A physical line as the scan reads it.
enum LineText {
    Comment,
    Broken,
    Sentinel,
    Text(Vec<char>),
}

impl View for LineText {
    type V = Line;

    closed spec fn view(&self) -> Line {
        match self {
            LineText::Comment => Line::Comment,
            LineText::Broken => Line::Broken,
            LineText::Sentinel => Line::Sentinel,
            LineText::Text(text) => Line::Text(text@),
        }
    }
}

fn is_sentinel(text: &[char]) -> (b: bool)
    ensures
        b == (text@ == sentinel()),
{
    let b = text.len() == 3 && text[0] == '-' && text[1] == '-' && text[2] == '-';
    assert(b ==> text@ =~= sentinel());
    b
}

fn read(line: &[u8]) -> (r: LineText)
    requires
        line@.len() > 0,
    ensures
        r@ == read_line(line@),
{
    if line[0] == COMMENT_MARK {
        return LineText::Comment;
    }
    match text_of(line) {
        None => LineText::Broken,
        Some(s) => {
            let mut chars = chars_of(s);
            let n = trim_end_len(chars.as_slice());
            chars.truncate(n);
            if is_sentinel(chars.as_slice()) {
                LineText::Sentinel
            } else {
                LineText::Text(chars)
            }
        },
    }
}

fn key_matches(key: &[char], header: Header) -> (b: bool)
    ensures
        b == (key@ == header_key(header)),
{
    let b = match header {
        Header::Patch => key.len() == 5 && key[0] == 'P' && key[1] == 'a' && key[2] == 't'
            && key[3] == 'c' && key[4] == 'h',
        Header::Author => key.len() == 6 && key[0] == 'A' && key[1] == 'u' && key[2] == 't'
            && key[3] == 'h' && key[4] == 'o' && key[5] == 'r',
        Header::Date => key.len() == 4 && key[0] == 'D' && key[1] == 'a' && key[2] == 't'
            && key[3] == 'e',
    };
    assert(b ==> key@ =~= header_key(header));
    b
}

fn recognize(index: usize, text: &[char]) -> (r: Option<(Header, Vec<char>)>)
    ensures
        match r {
            Some((header, value)) => header_at(index as int, text@) == Some((header, value@)),
            None => header_at(index as int, text@) is None,
        },
{
    let header = if index == 0 {
        Header::Patch
    } else if index == 1 {
        Header::Author
    } else if index == 2 {
        Header::Date
    } else {
        return None;
    };
    let colon = find_char(text, ':');
    if colon >= text.len() {
        return None;
    }
    if !key_matches(slice_subrange(text, 0, colon), header) {
        return None;
    }
    let value = trimmed(slice_subrange(text, colon + 1, text.len()));
    Some((header, slice_to_vec(value)))
}

/// The scan's state as it runs.
struct Scanner {
    patchname: Option<Vec<char>>,
    author: Option<Vec<char>>,
    authdate: Option<Vec<char>>,
    in_message: bool,
    after_blank: bool,
    message: Vec<char>,
}

spec fn opt_chars(o: Option<Vec<char>>) -> Option<Seq<char>> {
    match o {
        Some(v) => Some(v@),
        None => None,
    }
}

impl View for Scanner {
    type V = ScanState;

    closed spec fn view(&self) -> ScanState {
        ScanState {
            patchname: opt_chars(self.patchname),
            author: opt_chars(self.author),
            authdate: opt_chars(self.authdate),
            in_message: self.in_message,
            after_blank: self.after_blank,
            message: self.message@,
        }
    }
}

impl Scanner {
    fn new() -> (s: Scanner)
        ensures
            s@ == initial_state(),
    {
        Scanner {
            patchname: None,
            author: None,
            authdate: None,
            in_message: false,
            after_blank: false,
            message: Vec::new(),
        }
    }

    fn absorb(&mut self, index: usize, text: &[char])
        ensures
            final(self)@ == absorb(old(self)@, index as int, text@),
    {
        if self.in_message {
            if text.len() == 0 {
                if !self.after_blank {
                    self.message.push('\n');
                }
                self.after_blank = true;
            } else {
                self.after_blank = false;
                append_chars(&mut self.message, text);
                self.message.push('\n');
            }
        } else {
            match recognize(index, text) {
                Some((Header::Patch, value)) => {
                    self.patchname = Some(value);
                },
                Some((Header::Author, value)) => {
                    self.author = Some(value);
                },
                Some((Header::Date, value)) => {
                    self.authdate = Some(value);
                },
                None => {
                    if text.len() == 0 {
                        self.after_blank = true;
                    } else {
                        append_chars(&mut self.message, text);
                        self.message.push('\n');
                    }
                    self.in_message = true;
                },
            }
        }
    }
}

/// What a scan yields, as text and bytes.
pub struct ScannedDocument {
    pub raw_patchname: Option<String>,
    pub raw_author: Option<String>,
    pub raw_authdate: Option<String>,
    pub message: String,
    pub diff: Option<Vec<u8>>,
}

/// The characters of an optional string.
pub open spec fn opt_text(o: Option<String>) -> Option<Seq<char>> {
    match o {
        Some(s) => Some(s@),
        None => None,
    }
}

/// The bytes of an optional buffer.
pub open spec fn opt_bytes(o: Option<Vec<u8>>) -> Option<Seq<u8>> {
    match o {
        Some(v) => Some(v@),
        None => None,
    }
}

impl View for ScannedDocument {
    type V = Scanned;

    open spec fn view(&self) -> Scanned {
        Scanned {
            patchname: opt_text(self.raw_patchname),
            author: opt_text(self.raw_author),
            authdate: opt_text(self.raw_authdate),
            message: self.message@,
            diff: opt_bytes(self.diff),
        }
    }
}

fn finished_message(message: Vec<char>) -> (r: Vec<char>)
    ensures
        r@ == finish_message(message@),
{
    let mut cut = message;
    let n = cut.len();
    if n >= 2 && cut[n - 1] == '\n' && cut[n - 2] == '\n' {
        cut.pop();
    }
    if trimmed(cut.as_slice()).len() == 0 {
        Vec::new()
    } else {
        cut
    }
}

fn opt_string(o: Option<Vec<char>>) -> (r: Option<String>)
    ensures
        opt_text(r) == opt_chars(o),
{
    match o {
        Some(v) => Some(string_of(v.as_slice())),
        None => None,
    }
}

/// Scans the document `buf`. Nothing comes back if a line before the
/// sentinel is no comment and not valid UTF-8.
pub fn scan(buf: &[u8]) -> (r: Option<ScannedDocument>)
    ensures
        match r {
            Some(doc) => scan_spec(buf@) == Some(doc@),
            None => scan_spec(buf@) is None,
        },
{
    let mut scanner = Scanner::new();
    let mut pos: usize = 0;
    let mut index: usize = 0;
    let mut tail: Option<usize> = None;
    assert(buf@.skip(0) =~= buf@);
    while pos < buf.len() && tail.is_none()
        invariant
            index <= pos <= buf@.len(),
            match tail {
                None => scan_rest(buf@, 0, initial_state()) == scan_rest(
                    buf@.skip(pos as int),
                    index as int,
                    scanner@,
                ),
                Some(t) => t <= buf@.len() && scan_rest(buf@, 0, initial_state()) == Some(
                    (scanner@, Some(buf@.skip(t as int))),
                ),
            },
        decreases buf@.len() - pos,
    {
        let end = line_end(buf, pos);
        let line = slice_subrange(buf, pos, end);
        proof {
            let rest = buf@.skip(pos as int);
            assert(line@ =~= rest.take(end - pos));
            assert(buf@.skip(end as int) =~= rest.skip(end - pos));
        }
        match read(line) {
            LineText::Comment => {},
            LineText::Broken => {
                return None;
            },
            LineText::Sentinel => {
                tail = Some(end);
            },
            LineText::Text(text) => {
                scanner.absorb(index, text.as_slice());
            },
        }
        pos = end;
        index = index + 1;
    }
    let diff = match tail {
        Some(t) => {
            let bytes = slice_subrange(buf, t, buf.len());
            assert(bytes@ =~= buf@.skip(t as int));
            if is_all_ascii_whitespace(bytes) {
                None
            } else {
                Some(slice_to_vec(bytes))
            }
        },
        None => None,
    };
    let Scanner { patchname, author, authdate, in_message: _, after_blank: _, message } = scanner;
    let message = finished_message(message);
    Some(
        ScannedDocument {
            raw_patchname: opt_string(patchname),
            raw_author: opt_string(author),
            raw_authdate: opt_string(authdate),
            message: string_of(message.as_slice()),
            diff,
        },
    )
}

} // verus!
