//! The errors of the library.

use crate::text::{decimal, push_decimal};
use vstd::prelude::*;
use vstd::string::StringExecFns;

verus! {

/// What can go wrong when a description or a stack state is read or written.
#[derive(Debug)]
pub enum Error {
    /// A line before the diff is no comment and not valid UTF-8.
    NonUtf8PatchDescription,
    /// A failure that carries only its message.
    Generic(String),
    /// The patch name breaks the identifier grammar.
    InvalidPatchName(String),
    /// The `Author` value is not of the form `Name <email>`.
    InvalidNameEmail(String),
    /// The date, with the place it was found in, does not follow the format.
    InvalidDate(String, String),
    /// The time of a signature cannot be written as a date.
    UnprintableTime(i64, i32),
    /// The schema version found, and the one supported.
    UnsupportedVersion(i64, i64),
    /// `prev` is no object identifier.
    InvalidPrevOid(String),
    /// `head` is no object identifier.
    InvalidHeadOid(String),
    /// The patch, and its `oid`, which is no object identifier.
    InvalidPatchOid(String, String),
}

/// An error, with text as characters.
pub enum ErrorView {
    NonUtf8PatchDescription,
    Generic(Seq<char>),
    InvalidPatchName(Seq<char>),
    InvalidNameEmail(Seq<char>),
    InvalidDate(Seq<char>, Seq<char>),
    UnprintableTime(i64, i32),
    UnsupportedVersion(i64, i64),
    InvalidPrevOid(Seq<char>),
    InvalidHeadOid(Seq<char>),
    InvalidPatchOid(Seq<char>, Seq<char>),
}

impl View for Error {
    type V = ErrorView;

    open spec fn view(&self) -> ErrorView {
        match self {
            Error::NonUtf8PatchDescription => ErrorView::NonUtf8PatchDescription,
            Error::Generic(message) => ErrorView::Generic(message@),
            Error::InvalidPatchName(name) => ErrorView::InvalidPatchName(name@),
            Error::InvalidNameEmail(text) => ErrorView::InvalidNameEmail(text@),
            Error::InvalidDate(date, place) => ErrorView::InvalidDate(date@, place@),
            Error::UnprintableTime(seconds, offset) => ErrorView::UnprintableTime(
                *seconds,
                *offset,
            ),
            Error::UnsupportedVersion(found, expected) => ErrorView::UnsupportedVersion(
                *found,
                *expected,
            ),
            Error::InvalidPrevOid(text) => ErrorView::InvalidPrevOid(text@),
            Error::InvalidHeadOid(text) => ErrorView::InvalidHeadOid(text@),
            Error::InvalidPatchOid(patch, text) => ErrorView::InvalidPatchOid(patch@, text@),
        }
    }
}

impl ErrorView {
    /// The error in words, with what it carries.
    pub open spec fn message(self) -> Seq<char> {
        match self {
            ErrorView::NonUtf8PatchDescription => "patch description is not UTF-8"@,
            ErrorView::Generic(message) => message,
            ErrorView::InvalidPatchName(name) => "invalid patch name `"@ + name + "`"@,
            ErrorView::InvalidNameEmail(text) => "invalid name and email `"@ + text + "`"@,
            ErrorView::InvalidDate(date, place) => "invalid date `"@ + date + "` in "@ + place,
            ErrorView::UnprintableTime(seconds, offset) => "no date for time "@ + decimal(
                seconds as int,
            ) + " at offset "@ + decimal(offset as int),
            ErrorView::UnsupportedVersion(found, expected) => "invalid value: integer `"@
                + decimal(found as int) + "`, expected "@ + decimal(expected as int),
            ErrorView::InvalidPrevOid(text) => "invalid `prev` oid '"@ + text + "'"@,
            ErrorView::InvalidHeadOid(text) => "invalid `head` oid '"@ + text + "'"@,
            ErrorView::InvalidPatchOid(patch, text) => "invalid oid for patch `"@ + patch
                + "`: '"@ + text + "'"@,
        }
    }
}

impl Error {
    /// The error in words, with what it carries.
    pub fn message(&self) -> (text: String)
        ensures
            text@ == self@.message(),
    {
        match self {
            Error::NonUtf8PatchDescription => "patch description is not UTF-8".to_owned(),
            Error::Generic(message) => message.clone(),
            Error::InvalidPatchName(name) => {
                let mut text = "invalid patch name `".to_owned();
                text.append(name.as_str());
                text.append("`");
                text
            },
            Error::InvalidNameEmail(value) => {
                let mut text = "invalid name and email `".to_owned();
                text.append(value.as_str());
                text.append("`");
                text
            },
            Error::InvalidDate(date, place) => {
                let mut text = "invalid date `".to_owned();
                text.append(date.as_str());
                text.append("` in ");
                text.append(place.as_str());
                text
            },
            Error::UnprintableTime(seconds, offset) => {
                let mut text = "no date for time ".to_owned();
                push_decimal(&mut text, *seconds);
                text.append(" at offset ");
                push_decimal(&mut text, *offset as i64);
                text
            },
            Error::UnsupportedVersion(found, expected) => {
                let mut text = "invalid value: integer `".to_owned();
                push_decimal(&mut text, *found);
                text.append("`, expected ");
                push_decimal(&mut text, *expected);
                text
            },
            Error::InvalidPrevOid(value) => {
                let mut text = "invalid `prev` oid '".to_owned();
                text.append(value.as_str());
                text.append("'");
                text
            },
            Error::InvalidHeadOid(value) => {
                let mut text = "invalid `head` oid '".to_owned();
                text.append(value.as_str());
                text.append("'");
                text
            },
            Error::InvalidPatchOid(patch, value) => {
                let mut text = "invalid oid for patch `".to_owned();
                text.append(patch.as_str());
                text.append("`: '");
                text.append(value.as_str());
                text.append("'");
                text
            },
        }
    }
}

} // verus!
