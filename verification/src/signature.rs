//! Signatures: who wrote a patch, and when.

use crate::text::{chars_of, find_char, position, string_of, trim, trimmed};
use std::fmt::Write;
use vstd::prelude::*;
use vstd::slice::slice_subrange;

verus! {

/// The format in which a description carries its date.
pub const DATE_FORMAT: &'static str = "%Y-%m-%d %H:%M:%S %z";

/// The text that chrono writes for the instant `seconds` after the epoch,
/// seen `offset_seconds` east of UTC, in `format`; nothing, where it cannot
/// represent the instant or the offset, or cannot follow the format.
pub uninterp spec fn date_text(seconds: i64, offset_seconds: i32, format: Seq<char>) -> Option<
    Seq<char>,
>;

/// The instant, in seconds after the epoch, and the offset, in seconds east
/// of UTC, that chrono reads from `text` by `format`; nothing, where `text`
/// does not follow the format.
pub uninterp spec fn parsed_date(text: Seq<char>, format: Seq<char>) -> Option<(i64, i32)>;

/// The characters of an optional string.
pub open spec fn opt_text(o: Option<String>) -> Option<Seq<char>> {
    match o {
        Some(s) => Some(s@),
        None => None,
    }
}

/// chrono's `DateTime::format` for the instant that `DateTime::from_timestamp`
/// makes and the offset that `FixedOffset::east_opt` makes: the text it
/// writes, and nothing where any of the three gives up.
#[verifier::external_body]
fn chrono_format(seconds: i64, offset_seconds: i32, format: &str) -> (text: Option<String>)
    requires
        format@ == DATE_FORMAT@,
    ensures
        opt_text(text) == date_text(seconds, offset_seconds, format@),
{
    let offset = chrono::FixedOffset::east_opt(offset_seconds)?;
    let at = chrono::DateTime::from_timestamp(seconds, 0)?.with_timezone(&offset);
    let mut text = String::new();
    write!(text, "{}", at.format(format)).ok()?;
    Some(text)
}

/// chrono's `DateTime::parse_from_str`: the instant of the date it reads,
/// as its `timestamp` gives it, and the offset, as `local_minus_utc` gives
/// it; nothing where it reads no date.
#[verifier::external_body]
fn chrono_parse(text: &str, format: &str) -> (parsed: Option<(i64, i32)>)
    requires
        format@ == DATE_FORMAT@,
    ensures
        parsed == parsed_date(text@, format@),
{
    match chrono::DateTime::parse_from_str(text, format) {
        Ok(at) => Some((at.timestamp(), at.offset().local_minus_utc())),
        Err(_) => None,
    }
}

/// An instant and the offset of the place where it was noted.
#[derive(Clone, Copy, Debug, PartialEq, Eq, Structural)]
pub struct Time {
    /// Seconds after the epoch.
    pub seconds: i64,
    /// Minutes east of UTC.
    pub offset_minutes: i32,
}

/// `seconds` in whole minutes, rounded towards zero.
pub open spec fn whole_minutes(seconds: i32) -> int {
    if seconds >= 0 {
        seconds as int / 60
    } else {
        -((-(seconds as int)) / 60)
    }
}

impl Time {
    /// The time of an instant and an offset in minutes.
    pub fn new(seconds: i64, offset_minutes: i32) -> (t: Time)
        ensures
            t == (Time { seconds, offset_minutes }),
    {
        Time { seconds, offset_minutes }
    }

    /// Seconds after the epoch.
    pub fn seconds(&self) -> (s: i64)
        ensures
            s == self.seconds,
    {
        self.seconds
    }

    /// Minutes east of UTC.
    pub fn offset_minutes(&self) -> (m: i32)
        ensures
            m == self.offset_minutes,
    {
        self.offset_minutes
    }

    /// The offset in seconds, where thirty-two bits hold it.
    pub open spec fn offset_seconds(self) -> Option<i32> {
        if i32::MIN <= self.offset_minutes * 60 <= i32::MAX {
            Some((self.offset_minutes * 60) as i32)
        } else {
            None
        }
    }

    /// The date as a description carries it; nothing, where the time cannot
    /// be written.
    pub open spec fn text(self) -> Option<Seq<char>> {
        match self.offset_seconds() {
            Some(offset) => date_text(self.seconds, offset, DATE_FORMAT@),
            None => None,
        }
    }

    /// The time that an instant and an offset in seconds make.
    pub open spec fn at(seconds: i64, offset_seconds: i32) -> Time {
        Time { seconds, offset_minutes: whole_minutes(offset_seconds) as i32 }
    }

    /// The time that the date `text` tells; nothing, where `text` does not
    /// follow the format.
    pub open spec fn read(text: Seq<char>) -> Option<Time> {
        match parsed_date(text, DATE_FORMAT@) {
            Some((seconds, offset)) => Some(Time::at(seconds, offset)),
            None => None,
        }
    }

    /// The time that an instant and an offset in seconds make.
    pub fn from_offset_seconds(seconds: i64, offset_seconds: i32) -> (t: Time)
        ensures
            t == Time::at(seconds, offset_seconds),
    {
        let wide: i64 = offset_seconds as i64;
        let minutes: i64 = if wide >= 0 {
            wide / 60
        } else {
            -((-wide) / 60)
        };
        Time { seconds, offset_minutes: minutes as i32 }
    }

    /// Writes the time as a date.
    pub fn format(&self) -> (text: Option<String>)
        ensures
            opt_text(text) == self.text(),
    {
        if self.offset_minutes < -35791394 || self.offset_minutes > 35791394 {
            return None;
        }
        chrono_format(self.seconds, self.offset_minutes * 60, DATE_FORMAT)
    }

    /// Reads a date.
    pub fn parse(text: &str) -> (t: Option<Time>)
        ensures
            t == Time::read(text@),
    {
        match chrono_parse(text, DATE_FORMAT) {
            Some((seconds, offset)) => Some(Time::from_offset_seconds(seconds, offset)),
            None => None,
        }
    }
}

/// Whether git drops `c` from the ends of a name or an email.
pub open spec fn is_crud(c: char) -> bool {
    ||| c as u32 <= 32
    ||| c == ','
    ||| c == ':'
    ||| c == ';'
    ||| c == '<'
    ||| c == '>'
    ||| c == '"'
    ||| c == '\\'
    ||| c == '\''
}

/// `s` without the crud it begins with.
pub open spec fn crud_trim_start(s: Seq<char>) -> Seq<char>
    decreases s.len(),
{
    if s.len() > 0 && is_crud(s[0]) {
        crud_trim_start(s.drop_first())
    } else {
        s
    }
}

/// `s` without the crud it ends with.
pub open spec fn crud_trim_end(s: Seq<char>) -> Seq<char>
    decreases s.len(),
{
    if s.len() > 0 && is_crud(s.last()) {
        crud_trim_end(s.drop_last())
    } else {
        s
    }
}

/// `s` as git keeps it: without crud at either end.
pub open spec fn crud_trimmed(s: Seq<char>) -> Seq<char> {
    crud_trim_end(crud_trim_start(s))
}

/// Whether `s` holds a character that git refuses anywhere in a name or an
/// email: an angle bracket or NUL.
pub open spec fn has_banned(s: Seq<char>) -> bool {
    exists|i: int| 0 <= i < s.len() && is_banned(#[trigger] s[i])
}

/// An angle bracket or NUL.
pub open spec fn is_banned(c: char) -> bool {
    c == '<' || c == '>' || c == '\0'
}

/// Whether git makes a signature of `name` and `email`.
pub open spec fn git_accepts(name: Seq<char>, email: Seq<char>) -> bool {
    &&& !has_banned(name)
    &&& !has_banned(email)
    &&& crud_trimmed(name).len() > 0
    &&& crud_trimmed(email).len() > 0
}

/// Whether `s` is a name or an email as git keeps it: not empty, free of
/// angle brackets and NUL, and without crud at either end.
pub open spec fn is_clean(s: Seq<char>) -> bool {
    &&& s.len() > 0
    &&& !has_banned(s)
    &&& !is_crud(s[0])
    &&& !is_crud(s.last())
}

/// What `crud_trim_start` keeps is a suffix that does not begin with crud.
pub proof fn lemma_crud_trim_start(s: Seq<char>)
    ensures
        crud_trim_start(s).len() <= s.len(),
        crud_trim_start(s) == s.skip(s.len() - crud_trim_start(s).len()),
        crud_trim_start(s).len() > 0 ==> !is_crud(crud_trim_start(s)[0]),
    decreases s.len(),
{
    if s.len() > 0 && is_crud(s[0]) {
        let r = s.drop_first();
        lemma_crud_trim_start(r);
        let k = r.len() - crud_trim_start(r).len();
        assert(r.skip(k) =~= s.skip(k + 1));
    } else {
        assert(s.skip(0) =~= s);
    }
}

/// What `crud_trim_end` keeps is a prefix that does not end in crud.
pub proof fn lemma_crud_trim_end(s: Seq<char>)
    ensures
        crud_trim_end(s).len() <= s.len(),
        crud_trim_end(s) == s.take(crud_trim_end(s).len() as int),
        crud_trim_end(s).len() > 0 ==> !is_crud(crud_trim_end(s).last()),
    decreases s.len(),
{
    if s.len() > 0 && is_crud(s.last()) {
        let r = s.drop_last();
        lemma_crud_trim_end(r);
        assert(r.take(crud_trim_end(r).len() as int) =~= s.take(crud_trim_end(r).len() as int));
    } else {
        assert(s.take(s.len() as int) =~= s);
    }
}

/// What git keeps of a name or an email that it accepts is clean.
pub proof fn lemma_kept_is_clean(s: Seq<char>)
    requires
        !has_banned(s),
        crud_trimmed(s).len() > 0,
    ensures
        is_clean(crud_trimmed(s)),
{
    let a = crud_trim_start(s);
    let b = crud_trim_end(a);
    lemma_crud_trim_start(s);
    lemma_crud_trim_end(a);
    let k = s.len() - a.len();
    assert(b[0] == a[0]);
    assert forall|i: int| 0 <= i < b.len() implies !is_banned(#[trigger] b[i]) by {
        assert(b[i] == a[i]);
        assert(a[i] == s[k + i]);
        assert(!is_banned(s[k + i]));
    }
}

/// Git keeps a clean name or email as it is.
pub proof fn lemma_clean_is_kept(s: Seq<char>)
    requires
        is_clean(s),
    ensures
        crud_trimmed(s) == s,
{
}

/// The name and the email that an `Author` value gives: the value, without
/// the whitespace around it, is a name, `<`, an email and `>`. The name is
/// what stands before the first `<`, without the whitespace around it; the
/// email is what stands between that `<` and the first `>` after it, which
/// ends the value.
pub open spec fn split_name_email(text: Seq<char>) -> Option<(Seq<char>, Seq<char>)> {
    let value = trim(text);
    let open = position(value, '<');
    let rest = value.skip(open + 1);
    let close = position(rest, '>');
    if open < value.len() && close + 1 == rest.len() {
        Some((trim(value.take(open)), rest.take(close)))
    } else {
        None
    }
}

/// Splits an `Author` value into name and email.
pub fn parse_name_email(text: &str) -> (split: Option<(String, String)>)
    ensures
        match split {
            Some((name, email)) => split_name_email(text@) == Some((name@, email@)),
            None => split_name_email(text@) is None,
        },
{
    let chars = chars_of(text);
    let value = trimmed(chars.as_slice());
    let open = find_char(value, '<');
    if open >= value.len() {
        return None;
    }
    let rest = slice_subrange(value, open + 1, value.len());
    let close = find_char(rest, '>');
    if close >= rest.len() || close + 1 != rest.len() {
        return None;
    }
    let name = trimmed(slice_subrange(value, 0, open));
    let email = slice_subrange(rest, 0, close);
    Some((string_of(name), string_of(email)))
}

/// The author of a patch, and when the patch was written.
#[derive(Clone, Debug)]
pub struct Signature {
    pub name: String,
    pub email: String,
    pub time: Time,
}

/// A signature, with text as characters.
pub struct AuthorView {
    pub name: Seq<char>,
    pub email: Seq<char>,
    pub time: Time,
}

impl View for Signature {
    type V = AuthorView;

    open spec fn view(&self) -> AuthorView {
        AuthorView { name: self.name@, email: self.email@, time: self.time }
    }
}

impl AuthorView {
    /// Whether name and email are as git keeps them.
    pub open spec fn wf(self) -> bool {
        is_clean(self.name) && is_clean(self.email)
    }
}

/// `git2::Signature::new`: the signature is made unless the name or the
/// email holds an angle bracket or NUL, or is empty once the crud at its
/// ends is dropped; it keeps name and email without that crud, and the time
/// as given. They are read back through its `name`, `email` and `when`.
#[verifier::external_body]
fn git_signature_new(name: &str, email: &str, time: &Time) -> (made: Option<Signature>)
    ensures
        made is Some <==> git_accepts(name@, email@),
        made matches Some(sig) ==> sig@ == (AuthorView {
            name: crud_trimmed(name@),
            email: crud_trimmed(email@),
            time: *time,
        }),
{
    let at = git2::Time::new(time.seconds, time.offset_minutes);
    let sig = git2::Signature::new(name, email, &at).ok()?;
    let time = Time { seconds: sig.when().seconds(), offset_minutes: sig.when().offset_minutes() };
    Some(Signature { name: sig.name().ok()?.to_string(), email: sig.email().ok()?.to_string(), time })
}

/// `git2::Signature::now`: as `git2::Signature::new`, with the time and the
/// offset of the moment and the place of the call.
#[verifier::external_body]
fn git_signature_now(name: &str, email: &str) -> (made: Option<Signature>)
    ensures
        made is Some <==> git_accepts(name@, email@),
        made matches Some(sig) ==> sig@.name == crud_trimmed(name@) && sig@.email == crud_trimmed(
            email@,
        ),
{
    let sig = git2::Signature::now(name, email).ok()?;
    let time = Time { seconds: sig.when().seconds(), offset_minutes: sig.when().offset_minutes() };
    Some(Signature { name: sig.name().ok()?.to_string(), email: sig.email().ok()?.to_string(), time })
}

impl Signature {
    /// The signature of `name` and `email` at `time`, if git accepts them.
    pub fn new(name: &str, email: &str, time: &Time) -> (made: Option<Signature>)
        ensures
            made is Some <==> git_accepts(name@, email@),
            made matches Some(sig) ==> sig@ == (AuthorView {
                name: crud_trimmed(name@),
                email: crud_trimmed(email@),
                time: *time,
            }) && sig@.wf(),
    {
        let made = git_signature_new(name, email, time);
        proof {
            if git_accepts(name@, email@) {
                lemma_kept_is_clean(name@);
                lemma_kept_is_clean(email@);
            }
        }
        made
    }

    /// The signature of `name` and `email` at the time of the call, if git
    /// accepts them.
    pub fn now(name: &str, email: &str) -> (made: Option<Signature>)
        ensures
            made is Some <==> git_accepts(name@, email@),
            made matches Some(sig) ==> sig@.name == crud_trimmed(name@) && sig@.email
                == crud_trimmed(email@) && sig@.wf(),
    {
        let made = git_signature_now(name, email);
        proof {
            if git_accepts(name@, email@) {
                lemma_kept_is_clean(name@);
                lemma_kept_is_clean(email@);
            }
        }
        made
    }

    /// The name of the author.
    pub fn name(&self) -> (name: &str)
        ensures
            name@ == self@.name,
    {
        self.name.as_str()
    }

    /// The email of the author.
    pub fn email(&self) -> (email: &str)
        ensures
            email@ == self@.email,
    {
        self.email.as_str()
    }

    /// The time at which the patch was written.
    pub fn when(&self) -> (time: Time)
        ensures
            time == self@.time,
    {
        self.time
    }
}

} // verus!
