use vstd::prelude::*;
use vstd::std_specs::convert::TryFromSpecImpl;

use jiff::Zoned;

use crate::config::{CliError, CliErrorModel};
use crate::text::{string_of, text_eq};

verus! {

/// The progress state of a task.
#[derive(Debug, Clone, Copy, PartialEq, Eq, Structural)]
pub enum Status {
    Done,
    ToDo,
    InProgress,
}

/// The key that the file format and the command line use for a status.
pub open spec fn status_key(s: Status) -> Seq<char> {
    match s {
        Status::ToDo => "todo"@,
        Status::InProgress => "in-progress"@,
        Status::Done => "done"@,
    }
}

impl Status {
    /// Machine-friendly name of the status, as stored in the file and typed on the command line.
    pub fn as_str(&self) -> (res: &'static str)
        ensures
            res@ == status_key(*self),
    {
        match self {
            Status::ToDo => "todo",
            Status::InProgress => "in-progress",
            Status::Done => "done",
        }
    }
}

/// The status that a key names, if any.
pub open spec fn status_of_key(s: Seq<char>) -> Option<Status> {
    if s == "done"@ {
        Some(Status::Done)
    } else if s == "todo"@ {
        Some(Status::ToDo)
    } else if s == "in-progress"@ {
        Some(Status::InProgress)
    } else {
        None
    }
}

/// Reading back the key of a status gives that status: `Status::try_from` undoes `Status::as_str`.
pub proof fn lemma_status_key_roundtrip(s: Status)
    ensures
        status_of_key(status_key(s)) == Some(s),
{
    reveal_strlit("done");
    reveal_strlit("todo");
    reveal_strlit("in-progress");
    assert("todo"@ != "done"@) by {
        assert("todo"@[0] != "done"@[0]);
    }
    assert("in-progress"@ != "done"@) by {
        assert("in-progress"@.len() != "done"@.len());
    }
    assert("in-progress"@ != "todo"@) by {
        assert("in-progress"@.len() != "todo"@.len());
    }
}

/// The user-facing name of a status.
pub open spec fn status_label(s: Status) -> Seq<char> {
    match s {
        Status::Done => "Done"@,
        Status::ToDo => "Todo"@,
        Status::InProgress => "In-Progress"@,
    }
}

impl Status {
    /// User-friendly name of the status, as shown in messages and listings.
    pub fn display_name(&self) -> (res: &'static str)
        ensures
            res@ == status_label(*self),
    {
        match self {
            Status::Done => "Done",
            Status::ToDo => "Todo",
            Status::InProgress => "In-Progress",
        }
    }

    /// The status whose key is `value`.
    pub fn from_key(value: &str) -> (res: Result<Status, CliError>)
        ensures
            match res {
                Ok(s) => status_of_key(value@) == Some(s),
                Err(e) => status_of_key(value@) is None && e@ == CliErrorModel::InvalidStatus(
                    value@,
                ),
            },
    {
        if text_eq(value, "done") {
            Ok(Status::Done)
        } else if text_eq(value, "todo") {
            Ok(Status::ToDo)
        } else if text_eq(value, "in-progress") {
            Ok(Status::InProgress)
        } else {
            Err(CliError::InvalidStatus(string_of(value)))
        }
    }
}

impl<'a> TryFrom<&'a str> for Status {
    type Error = CliError;

    fn try_from(value: &'a str) -> (res: Result<Status, CliError>)
        ensures
            match res {
                Ok(s) => status_of_key(value@) == Some(s),
                Err(e) => status_of_key(value@) is None && e@ == CliErrorModel::InvalidStatus(
                    value@,
                ),
            },
    {
        Status::from_key(value)
    }
}

impl<'a> TryFromSpecImpl<&'a str> for Status {
    /// The conversion's result is stated by the `ensures` of `try_from` above,
    /// over the views of the error texts, so the generic law is not claimed.
    open spec fn obeys_try_from_spec() -> bool {
        false
    }

    open spec fn try_from_spec(v: &'a str) -> Result<Status, CliError> {
        arbitrary()
    }
}

/// A zoned date-time of the `jiff` crate, carried through the library unopened.
#[verifier::external_type_specification]
#[verifier::external_body]
pub struct ExZoned(jiff::Zoned);

/// `Zoned::clone` (derived in jiff, field by field) gives back the same value.
pub assume_specification[ <jiff::Zoned as Clone>::clone ](z: &jiff::Zoned) -> (res: jiff::Zoned)
    ensures
        res == *z,
;

/// A task of the list.
#[derive(Debug, PartialEq, Clone)]
pub struct Task {
    pub id: u32,
    pub desc: String,
    pub status: Status,
    pub created_at: Zoned,
    pub updated_at: Zoned,
}

/// What `Zoned::round` with `Unit::Second` gives for a time: the time rounded to the nearest
/// second in its own time zone, or `None` where jiff reports an error (the rounded time would
/// leave the supported range). It depends on the value alone, whose time zone rules it carries.
pub uninterp spec fn rounded_to_second(z: Zoned) -> Option<Zoned>;

/// Calls `Zoned::round` with `Unit::Second`; the result is the one that `rounded_to_second` names.
#[verifier::external_body]
pub(crate) fn round_to_second(z: &Zoned) -> (res: Option<Zoned>)
    ensures
        res == rounded_to_second(*z),
{
    z.round(jiff::Unit::Second).ok()
}

/// The text that `Zoned`'s `Display` writes for a time: its RFC 9557 form, such as
/// `2024-02-29T12:51:00+08:00[Asia/Manila]`, which depends on the value alone.
pub uninterp spec fn rfc9557_text(z: Zoned) -> Seq<char>;

/// Calls `Zoned`'s `Display` (through `to_string`); the text is the one that `rfc9557_text` names.
#[verifier::external_body]
pub(crate) fn zoned_text(z: &Zoned) -> (res: String)
    ensures
        res@ == rfc9557_text(*z),
{
    z.to_string()
}

/// Whether jiff's `FromStr` for `Zoned` reads `text` as `time`. Whether a text is read at
/// all, and as which time, depends on the time zone database that jiff finds on the machine;
/// this holds of a text and a time where some database makes jiff read the one as the other,
/// so it is a property of the two values alone, and nothing says when it holds.
pub uninterp spec fn jiff_reads_as(text: Seq<char>, time: Zoned) -> bool;

/// Calls `str::parse::<Zoned>` (jiff's `FromStr`): the time that the RFC 9557 text denotes,
/// or `None` where jiff refuses the text. Which texts are refused depends on the machine's
/// time zone database, so that is not stated; a time it gives is one that jiff reads the text as.
#[verifier::external_body]
pub(crate) fn parse_zoned(s: &str) -> (res: Option<Zoned>)
    ensures
        res matches Some(z) ==> jiff_reads_as(s@, z),
{
    s.parse::<Zoned>().ok()
}

/// The text that `Zoned::strftime` writes for a time with the format `%Y-%m-%d %H:%M`: its date
/// and minute in its own time zone, which depend on the value alone.
pub uninterp spec fn minute_stamp(z: Zoned) -> Seq<char>;

/// Calls `Zoned::strftime` with `%Y-%m-%d %H:%M` and renders it; the text is the one that
/// `minute_stamp` names.
#[verifier::external_body]
pub(crate) fn minute_text(z: &Zoned) -> (res: String)
    ensures
        res@ == minute_stamp(*z),
{
    z.strftime("%Y-%m-%d %H:%M").to_string()
}

} // verus!
