//! The description of a patch: its name, author, message and diff, and the
//! document in which a person edits them.

use crate::error::{Error, ErrorView};
use crate::patchedit::scan::{
    header_key, scan, scan_spec, sentinel, Header, Scanned, ScannedDocument,
};
use crate::patchname::{is_patch_name, PatchName};
use crate::signature::{
    crud_trimmed, git_accepts, parse_name_email, split_name_email, Signature, AuthorView, Time,
};
use crate::text::{chars_of, push_text, string_of};
use vstd::prelude::*;
use vstd::slice::slice_subrange;
use vstd::string::StringExecFns;
use vstd::utf8::encode_utf8;

verus! {

/// The diff of a patch: bytes that are carried as they are.
#[derive(Clone, Debug, PartialEq, Eq)]
pub struct DiffBuffer(pub Vec<u8>);

impl View for DiffBuffer {
    type V = Seq<u8>;

    open spec fn view(&self) -> Seq<u8> {
        self.0@
    }
}

impl DiffBuffer {
    /// The bytes of the diff.
    pub fn as_ref(&self) -> (bytes: &[u8])
        ensures
            bytes@ == self@,
    {
        self.0.as_slice()
    }
}

/// What a person edits of a patch.
#[derive(Debug)]
pub struct PatchDescription {
    pub patchname: Option<PatchName>,
    pub author: Option<Signature>,
    pub message: String,
    /// Guidance that is written after the message and never read back.
    pub instruction: Option<&'static str>,
    /// Guidance that is written before the diff and never read back.
    pub diff_instruction: Option<&'static str>,
    pub diff: Option<DiffBuffer>,
}

/// A description, with text as characters and the diff as bytes.
pub struct PatchDescriptionView {
    pub patchname: Option<Seq<char>>,
    pub author: Option<AuthorView>,
    pub message: Seq<char>,
    pub instruction: Option<Seq<char>>,
    pub diff_instruction: Option<Seq<char>>,
    pub diff: Option<Seq<u8>>,
}

impl View for PatchDescription {
    type V = PatchDescriptionView;

    open spec fn view(&self) -> PatchDescriptionView {
        PatchDescriptionView {
            patchname: match self.patchname {
                Some(name) => Some(name@),
                None => None,
            },
            author: match self.author {
                Some(author) => Some(author@),
                None => None,
            },
            message: self.message@,
            instruction: match self.instruction {
                Some(text) => Some(text@),
                None => None,
            },
            diff_instruction: match self.diff_instruction {
                Some(text) => Some(text@),
                None => None,
            },
            diff: match self.diff {
                Some(diff) => Some(diff@),
                None => None,
            },
        }
    }
}

/// `s` without the line feeds it ends with.
pub open spec fn strip_line_feeds(s: Seq<char>) -> Seq<char>
    decreases s.len(),
{
    if s.len() > 0 && s.last() == '\n' {
        strip_line_feeds(s.drop_last())
    } else {
        s
    }
}

/// The spaces between the colon of a header and its value, which bring the
/// values of the three headers into one column.
pub open spec fn padding(header: Header) -> Seq<char> {
    match header {
        Header::Patch => seq![' ', ' '],
        Header::Author => seq![' '],
        Header::Date => seq![' ', ' ', ' '],
    }
}

/// The line of a header: its key, a colon, the padding, the value and a
/// line feed.
pub open spec fn header_line(header: Header, value: Seq<char>) -> Seq<char> {
    header_key(header).push(':') + padding(header) + value.push('\n')
}

/// The value of the `Author` header: the name, and the email between angle
/// brackets.
pub open spec fn author_value(author: AuthorView) -> Seq<char> {
    author.name + seq![' ', '<'] + author.email.push('>')
}

/// The three header lines, with `date` as the date of the author. Without
/// an author the `Author` and `Date` headers have no value, and without a
/// patch name the `Patch` header has none.
pub open spec fn header_text(d: PatchDescriptionView, date: Seq<char>) -> Seq<char> {
    header_line(
        Header::Patch,
        match d.patchname {
            Some(name) => name,
            None => Seq::empty(),
        },
    ) + header_line(
        Header::Author,
        match d.author {
            Some(author) => author_value(author),
            None => Seq::empty(),
        },
    ) + header_line(
        Header::Date,
        match d.author {
            Some(_) => date,
            None => Seq::empty(),
        },
    )
}

/// The blank line after the headers, the message with one line feed at its
/// end, and a blank line, after which the instruction stands if there is
/// one.
pub open spec fn body_text(d: PatchDescriptionView) -> Seq<char> {
    seq!['\n'] + strip_line_feeds(d.message) + seq!['\n', '\n'] + (match d.instruction {
        Some(text) => text,
        None => Seq::empty(),
    })
}

/// What stands before the sentinel line where there is a diff: the
/// instruction for the diff, if there is one.
pub open spec fn diff_lead(d: PatchDescriptionView) -> Seq<char> {
    match d.diff_instruction {
        Some(text) => text,
        None => Seq::empty(),
    }
}

/// What follows the text where there is a diff: the instruction for the
/// diff if there is one, the sentinel line, and the diff as it is.
pub open spec fn diff_part(d: PatchDescriptionView) -> Seq<u8> {
    match d.diff {
        Some(bytes) => encode_utf8(diff_lead(d) + sentinel().push('\n')) + bytes,
        None => Seq::empty(),
    }
}

/// The document of the description `d`, with `date` as the date of the
/// author.
pub open spec fn document(d: PatchDescriptionView, date: Seq<char>) -> Seq<u8> {
    encode_utf8(header_text(d, date) + body_text(d)) + diff_part(d)
}

impl PatchDescriptionView {
    /// The date that the document carries: that of the author, and an empty
    /// one without an author. Nothing, where the time of the author cannot
    /// be written as a date.
    pub open spec fn date(self) -> Option<Seq<char>> {
        match self.author {
            Some(author) => author.time.text(),
            None => Some(Seq::empty()),
        }
    }
}

/// The author as a document tells it: the time is missing where the
/// document has no date.
pub struct ParsedAuthor {
    pub name: Seq<char>,
    pub email: Seq<char>,
    pub time: Option<Time>,
}

/// What a document tells of a description.
pub struct Parsed {
    pub patchname: Option<Seq<char>>,
    pub author: Option<ParsedAuthor>,
    pub message: Seq<char>,
    pub diff: Option<Seq<u8>>,
}

impl Parsed {
    /// The description that the document gives when it is read at `now`: an
    /// author without a date gets that time.
    pub open spec fn at(self, now: Time) -> PatchDescriptionView {
        PatchDescriptionView {
            patchname: self.patchname,
            author: match self.author {
                Some(author) => Some(
                    AuthorView {
                        name: author.name,
                        email: author.email,
                        time: match author.time {
                            Some(time) => time,
                            None => now,
                        },
                    },
                ),
                None => None,
            },
            message: self.message,
            instruction: None,
            diff_instruction: None,
            diff: self.diff,
        }
    }
}

/// The message of the error for a document that was left as it was.
pub open spec fn abort_message() -> Seq<char> {
    "Aborting edit due to empty patch description"@
}

/// The place that the error for a date names.
pub open spec fn date_place() -> Seq<char> {
    "patch description"@
}

/// Whether the scan found nothing: no header and no message.
pub open spec fn untouched(s: Scanned) -> bool {
    s.patchname is None && s.author is None && s.authdate is None && s.message.len() == 0
}

/// The patch name that the `Patch` header gives: none where the header is
/// missing or empty, and an error where its value breaks the grammar.
pub open spec fn read_patchname(raw: Option<Seq<char>>) -> Result<Option<Seq<char>>, ErrorView> {
    match raw {
        Some(name) => if name.len() == 0 {
            Ok(None)
        } else if is_patch_name(name) {
            Ok(Some(name))
        } else {
            Err(ErrorView::InvalidPatchName(name))
        },
        None => Ok(None),
    }
}

/// The author that the `Author` and `Date` headers give. Without an
/// `Author` header there is none, whatever the date. The value must split
/// into name and email, the date, if there is one, must follow the format,
/// and git must accept name and email, which are kept as git keeps them.
pub open spec fn read_author(author: Option<Seq<char>>, authdate: Option<Seq<char>>) -> Result<
    Option<ParsedAuthor>,
    ErrorView,
> {
    match author {
        None => Ok(None),
        Some(text) => match split_name_email(text) {
            None => Err(ErrorView::InvalidNameEmail(text)),
            Some((name, email)) => match read_date(authdate) {
                Err(e) => Err(e),
                Ok(time) => if git_accepts(name, email) {
                    Ok(
                        Some(
                            ParsedAuthor {
                                name: crud_trimmed(name),
                                email: crud_trimmed(email),
                                time,
                            },
                        ),
                    )
                } else {
                    Err(ErrorView::InvalidNameEmail(text))
                },
            },
        },
    }
}

/// The time that the `Date` header gives, if there is one.
pub open spec fn read_date(authdate: Option<Seq<char>>) -> Result<Option<Time>, ErrorView> {
    match authdate {
        Some(date) => match Time::read(date) {
            Some(time) => Ok(Some(time)),
            None => Err(ErrorView::InvalidDate(date, date_place())),
        },
        None => Ok(None),
    }
}

/// What the document `buf` tells, or the error it is refused with: that of
/// a line that is not valid UTF-8, of a document left as it was, of the
/// patch name, of the author and of the date, in this order.
pub open spec fn parse_spec(buf: Seq<u8>) -> Result<Parsed, ErrorView> {
    match scan_spec(buf) {
        None => Err(ErrorView::NonUtf8PatchDescription),
        Some(s) => if untouched(s) {
            Err(ErrorView::Generic(abort_message()))
        } else {
            match read_patchname(s.patchname) {
                Err(e) => Err(e),
                Ok(patchname) => match read_author(s.author, s.authdate) {
                    Err(e) => Err(e),
                    Ok(author) => Ok(
                        Parsed { patchname, author, message: s.message, diff: s.diff },
                    ),
                },
            }
        },
    }
}

/// Name, email and time of an author, before git has seen them, with the
/// header value they were read from.
struct AuthorFields {
    name: String,
    email: String,
    time: Option<Time>,
    text: String,
}

/// What a document tells, before git has seen the author.
struct Fields {
    patchname: Option<PatchName>,
    author: Option<AuthorFields>,
    message: String,
    diff: Option<Vec<u8>>,
}

spec fn fields_expected(buf: Seq<u8>) -> Result<Scanned, ErrorView> {
    match scan_spec(buf) {
        None => Err(ErrorView::NonUtf8PatchDescription),
        Some(s) => if untouched(s) {
            Err(ErrorView::Generic(abort_message()))
        } else {
            match read_patchname(s.patchname) {
                Err(e) => Err(e),
                Ok(_) => match s.author {
                    None => Ok(s),
                    Some(text) => match split_name_email(text) {
                        None => Err(ErrorView::InvalidNameEmail(text)),
                        Some(_) => match read_date(s.authdate) {
                            Err(e) => Err(e),
                            Ok(_) => Ok(s),
                        },
                    },
                },
            }
        },
    }
}

spec fn fields_match(f: Fields, s: Scanned) -> bool {
    &&& read_patchname(s.patchname) == Ok::<Option<Seq<char>>, ErrorView>(
        match f.patchname {
            Some(name) => Some(name@),
            None => None,
        },
    )
    &&& f.message@ == s.message
    &&& s.diff == match f.diff {
        Some(bytes) => Some(bytes@),
        None => None,
    }
    &&& match f.author {
        None => s.author is None,
        Some(a) => {
            &&& s.author == Some(a.text@)
            &&& split_name_email(a.text@) == Some((a.name@, a.email@))
            &&& read_date(s.authdate) == Ok::<Option<Time>, ErrorView>(a.time)
        },
    }
}

fn read_fields(buf: &[u8]) -> (r: Result<Fields, Error>)
    ensures
        match r {
            Ok(f) => fields_expected(buf@) matches Ok(s) && fields_match(f, s),
            Err(e) => fields_expected(buf@) == Err::<Scanned, ErrorView>(e@),
        },
{
    let doc = match scan(buf) {
        Some(doc) => doc,
        None => {
            return Err(Error::NonUtf8PatchDescription);
        },
    };
    let ghost s = doc@;
    if doc.raw_patchname.is_none() && doc.raw_author.is_none() && doc.raw_authdate.is_none()
        && doc.message.as_str().is_empty() {
        return Err(Error::Generic("Aborting edit due to empty patch description".to_owned()));
    }
    let ScannedDocument { raw_patchname, raw_author, raw_authdate, message, diff } = doc;
    let patchname = match raw_patchname {
        Some(name) => {
            if name.as_str().is_empty() {
                None
            } else {
                match PatchName::new(name.as_str()) {
                    Some(valid) => Some(valid),
                    None => {
                        return Err(Error::InvalidPatchName(name));
                    },
                }
            }
        },
        None => None,
    };
    let author = match raw_author {
        Some(text) => {
            match parse_name_email(text.as_str()) {
                Some((name, email)) => {
                    let time = match raw_authdate {
                        Some(date) => {
                            match Time::parse(date.as_str()) {
                                Some(time) => Some(time),
                                None => {
                                    return Err(
                                        Error::InvalidDate(date, "patch description".to_owned()),
                                    );
                                },
                            }
                        },
                        None => None,
                    };
                    Some(AuthorFields { name, email, time, text })
                },
                None => {
                    return Err(Error::InvalidNameEmail(text));
                },
            }
        },
        None => None,
    };
    Ok(Fields { patchname, author, message, diff })
}

/// The line of the header `header` with the value `value`.
fn header_line_string(header: Header, value: &str) -> (line: String)
    ensures
        line@ == header_line(header, value@),
{
    let mut line = match header {
        Header::Patch => "Patch:  ".to_owned(),
        Header::Author => "Author: ".to_owned(),
        Header::Date => "Date:   ".to_owned(),
    };
    line.append(value);
    line.append("\n");
    proof {
        reveal_strlit("Patch:  ");
        reveal_strlit("Author: ");
        reveal_strlit("Date:   ");
        reveal_strlit("\n");
        assert(line@ =~= header_line(header, value@));
    }
    line
}

fn wrap_diff(diff: Option<Vec<u8>>) -> (r: Option<DiffBuffer>)
    ensures
        match r {
            Some(d) => diff matches Some(bytes) && d@ == bytes@,
            None => diff is None,
        },
{
    match diff {
        Some(bytes) => Some(DiffBuffer(bytes)),
        None => None,
    }
}

impl PatchDescription {
    /// Reads the document `buf`. An author without a date gets the time and
    /// the offset of the moment and the place of the call.
    pub fn try_from(buf: &[u8]) -> (r: Result<PatchDescription, Error>)
        ensures
            match r {
                Ok(d) => parse_spec(buf@) matches Ok(p) && exists|now: Time| d@ == p.at(now),
                Err(e) => parse_spec(buf@) == Err::<Parsed, ErrorView>(e@),
            },
            r matches Ok(d) ==> (d@.author matches Some(a) ==> a.wf()),
    {
        let fields = match read_fields(buf) {
            Ok(fields) => fields,
            Err(e) => {
                return Err(e);
            },
        };
        let Fields { patchname, author, message, diff } = fields;
        let author = match author {
            Some(a) => {
                let made = match a.time {
                    Some(time) => Signature::new(a.name.as_str(), a.email.as_str(), &time),
                    None => Signature::now(a.name.as_str(), a.email.as_str()),
                };
                match made {
                    Some(signature) => Some(signature),
                    None => {
                        return Err(Error::InvalidNameEmail(a.text));
                    },
                }
            },
            None => None,
        };
        let d = PatchDescription {
            patchname,
            author,
            message,
            instruction: None,
            diff_instruction: None,
            diff: wrap_diff(diff),
        };
        proof {
            let p = parse_spec(buf@)->Ok_0;
            let now = match d@.author {
                Some(a) => a.time,
                None => Time { seconds: 0, offset_minutes: 0 },
            };
            assert(d@ == p.at(now));
        }
        Ok(d)
    }

    /// Reads the document `buf` as at `now`: an author without a date gets
    /// that time.
    pub fn parse_at(buf: &[u8], now: &Time) -> (r: Result<PatchDescription, Error>)
        ensures
            match r {
                Ok(d) => parse_spec(buf@) matches Ok(p) && d@ == p.at(*now),
                Err(e) => parse_spec(buf@) == Err::<Parsed, ErrorView>(e@),
            },
            r matches Ok(d) ==> (d@.author matches Some(a) ==> a.wf()),
    {
        let fields = match read_fields(buf) {
            Ok(fields) => fields,
            Err(e) => {
                return Err(e);
            },
        };
        let Fields { patchname, author, message, diff } = fields;
        let author = match author {
            Some(a) => {
                let time = match a.time {
                    Some(time) => time,
                    None => *now,
                };
                match Signature::new(a.name.as_str(), a.email.as_str(), &time) {
                    Some(signature) => Some(signature),
                    None => {
                        return Err(Error::InvalidNameEmail(a.text));
                    },
                }
            },
            None => None,
        };
        Ok(
            PatchDescription {
                patchname,
                author,
                message,
                instruction: None,
                diff_instruction: None,
                diff: wrap_diff(diff),
            },
        )
    }

    /// The header lines of the document, with `date` as the date of the
    /// author.
    fn header_string(&self, date: &str) -> (text: String)
        ensures
            text@ == header_text(self@, date@),
    {
        proof {
            reveal_strlit("");
        }
        let mut text = match &self.patchname {
            Some(name) => header_line_string(Header::Patch, name.as_str()),
            None => header_line_string(Header::Patch, ""),
        };
        match &self.author {
            Some(author) => {
                let mut value = author.name.clone();
                value.append(" <");
                value.append(author.email.as_str());
                value.append(">");
                proof {
                    reveal_strlit(" <");
                    reveal_strlit(">");
                    assert(value@ =~= author_value(author@));
                }
                text.append(header_line_string(Header::Author, value.as_str()).as_str());
                text.append(header_line_string(Header::Date, date).as_str());
            },
            None => {
                text.append(header_line_string(Header::Author, "").as_str());
                text.append(header_line_string(Header::Date, "").as_str());
            },
        }
        assert(""@ =~= Seq::<char>::empty());
        text
    }

    /// The message of the document, between blank lines, and the
    /// instruction.
    fn body_string(&self) -> (text: String)
        ensures
            text@ == body_text(self@),
    {
        let chars = chars_of(self.message.as_str());
        let mut n: usize = chars.len();
        assert(chars@.take(n as int) =~= chars@);
        while n > 0 && chars[n - 1] == '\n'
            invariant
                n <= chars@.len(),
                strip_line_feeds(chars@) == strip_line_feeds(chars@.take(n as int)),
            decreases n,
        {
            assert(chars@.take(n as int).drop_last() =~= chars@.take(n - 1));
            n -= 1;
        }
        let message = string_of(slice_subrange(chars.as_slice(), 0, n));
        let mut text = "\n".to_owned();
        text.append(message.as_str());
        text.append("\n\n");
        proof {
            reveal_strlit("\n");
            reveal_strlit("\n\n");
            assert("\n"@ =~= seq!['\n']);
            assert("\n\n"@ =~= seq!['\n', '\n']);
        }
        match self.instruction {
            Some(instruction) => {
                text.append(instruction);
            },
            None => {
                assert(text@ + Seq::<char>::empty() =~= text@);
            },
        }
        text
    }

    /// Appends the document of the description to `stream`, with `date` as
    /// the date of the author.
    pub fn write_dated(&self, date: &str, stream: &mut Vec<u8>)
        ensures
            final(stream)@ == old(stream)@ + document(self@, date@),
    {
        let mut text = self.header_string(date);
        let body = self.body_string();
        text.append(body.as_str());
        push_text(stream, text.as_str());
        match &self.diff {
            Some(diff) => {
                let mut lead = match self.diff_instruction {
                    Some(instruction) => instruction.to_owned(),
                    None => String::new(),
                };
                lead.append("---\n");
                proof {
                    reveal_strlit("---\n");
                    assert("---\n"@ =~= sentinel().push('\n'));
                }
                let ghost before = stream@;
                push_text(stream, lead.as_str());
                stream.extend_from_slice(diff.as_ref());
                assert(stream@ =~= before + (encode_utf8(lead@) + diff@));
                assert(before + (encode_utf8(lead@) + diff@) =~= old(stream)@ + (encode_utf8(text@)
                    + (encode_utf8(lead@) + diff@)));
            },
            None => {
                assert(stream@ =~= old(stream)@ + (encode_utf8(text@) + Seq::<u8>::empty()));
            },
        }
    }

    /// Appends the document of the description to `stream`. It fails, and
    /// leaves `stream` as it was, where the time of the author cannot be
    /// written as a date.
    pub fn write(&self, stream: &mut Vec<u8>) -> (r: Result<(), Error>)
        ensures
            match self@.date() {
                Some(date) => r is Ok && final(stream)@ == old(stream)@ + document(self@, date),
                None => {
                    &&& final(stream)@ == old(stream)@
                    &&& r matches Err(e)
                    &&& self@.author matches Some(a)
                    &&& e@ == ErrorView::UnprintableTime(a.time.seconds, a.time.offset_minutes)
                },
            },
    {
        match &self.author {
            Some(author) => {
                match author.time.format() {
                    Some(date) => {
                        self.write_dated(date.as_str(), stream);
                        Ok(())
                    },
                    None => Err(
                        Error::UnprintableTime(author.time.seconds, author.time.offset_minutes),
                    ),
                }
            },
            None => {
                self.write_dated("", stream);
                proof {
                    reveal_strlit("");
                    assert(""@ =~= Seq::<char>::empty());
                }
                Ok(())
            },
        }
    }
}

impl AsRef<[u8]> for DiffBuffer {
    /// The bytes of the diff.
    fn as_ref(&self) -> (bytes: &[u8])
        ensures
            bytes@ == self@,
    {
        self.0.as_slice()
    }
}

impl TryFrom<&[u8]> for PatchDescription {
    type Error = Error;

    /// Reads the document `buf`, as the function of the same name of the
    /// type does. An author without a date gets the time and the offset of
    /// the moment and the place of the call.
    fn try_from(buf: &[u8]) -> (r: Result<PatchDescription, Error>)
        ensures
            match r {
                Ok(d) => parse_spec(buf@) matches Ok(p) && exists|now: Time| d@ == p.at(now),
                Err(e) => parse_spec(buf@) == Err::<Parsed, ErrorView>(e@),
            },
            r matches Ok(d) ==> (d@.author matches Some(a) ==> a.wf()),
    {
        PatchDescription::try_from(buf)
    }
}

impl vstd::std_specs::convert::TryFromSpecImpl<&[u8]> for PatchDescription {
    open spec fn obeys_try_from_spec() -> bool {
        false
    }

    open spec fn try_from_spec(buf: &[u8]) -> Result<PatchDescription, Error> {
        arbitrary()
    }
}

impl Default for PatchDescription {
    /// The description that holds nothing.
    fn default() -> (d: PatchDescription)
        ensures
            d@ == (PatchDescriptionView {
                patchname: None,
                author: None,
                message: Seq::empty(),
                instruction: None,
                diff_instruction: None,
                diff: None,
            }),
    {
        PatchDescription {
            patchname: None,
            author: None,
            message: String::new(),
            instruction: None,
            diff_instruction: None,
            diff: None,
        }
    }
}


/// Whether `needle` occurs in `haystack` starting at index `i`.
pub open spec fn occurs_at(haystack: Seq<u8>, needle: Seq<u8>, i: int) -> bool {
    &&& 0 <= i
    &&& i + needle.len() <= haystack.len()
    &&& haystack.subrange(i, i + needle.len()) == needle
}

/// Whether `haystack` and `needle` agree on the first `k` bytes of the
/// window that starts at `i`.
pub open spec fn agree_upto(haystack: Seq<u8>, needle: Seq<u8>, i: int, k: int) -> bool {
    forall|t: int| 0 <= t < k ==> haystack[i + t] == needle[t]
}

/// Index of the first occurrence of `needle` in `haystack`, if there is one.
pub fn _find(haystack: &[u8], needle: &[u8]) -> (found: Option<usize>)
    ensures
        match found {
            Some(i) => occurs_at(haystack@, needle@, i as int) && forall|j: int|
                0 <= j < i ==> !occurs_at(haystack@, needle@, j),
            None => forall|j: int| !occurs_at(haystack@, needle@, j),
        },
{
    let n: usize = haystack.len();
    let m: usize = needle.len();
    if n < m {
        return None;
    }
    let last: usize = n - m;
    let mut i: usize = 0;
    while i <= last
        invariant
            n == haystack@.len(),
            m == needle@.len(),
            m <= n,
            last == n - m,
            i <= last + 1,
            forall|j: int| 0 <= j < i ==> !occurs_at(haystack@, needle@, j),
        decreases last + 1 - i,
    {
        let mut k: usize = 0;
        while k < m && haystack[i + k] == needle[k]
            invariant
                n == haystack@.len(),
                m == needle@.len(),
                i + m <= n,
                k <= m,
                agree_upto(haystack@, needle@, i as int, k as int),
            decreases m - k,
        {
            k += 1;
        }
        if k == m {
            assert(haystack@.subrange(i as int, i + m) =~= needle@);
            return Some(i);
        }
        assert(!occurs_at(haystack@, needle@, i as int)) by {
            if occurs_at(haystack@, needle@, i as int) {
                assert(haystack@.subrange(i as int, i + m)[k as int] == needle@[k as int]);
            }
        }
        i += 1;
    }
    None
}

} // verus!
