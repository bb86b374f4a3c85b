//! Signal sources: what can go wrong when loading one, and the parsing
//! rules of the sources whose formats are this project's own.
use vstd::prelude::*;
use crate::text::push_str;

pub mod audio;
pub mod iq;
pub mod packet;

verus! {

/// `std::io::Error`, carried through unchanged.
#[verifier::external_type_specification]
#[verifier::external_body]
pub struct ExIoError(std::io::Error);

/// Why a source could not produce a signal.
#[derive(Debug)]
pub enum SourceError {
    /// Reading the file failed.
    Io(std::io::Error),
    /// The file was read but its content is not in the expected format.
    Format(String),
}

/// The text of an I/O error.
/// Calls `<std::io::Error as Display>` through `ToString::to_string`; the
/// text comes from the operating system and nothing is stated of it.
#[verifier::external_body]
fn io_error_text(e: &std::io::Error) -> String {
    e.to_string()
}

impl From<std::io::Error> for SourceError {
    /// An I/O error is a source error of the I/O kind.
    fn from(e: std::io::Error) -> (err: SourceError) {
        SourceError::Io(e)
    }
}

impl vstd::std_specs::convert::FromSpecImpl<std::io::Error> for SourceError {
    open spec fn obeys_from_spec() -> bool {
        true
    }

    open spec fn from_spec(e: std::io::Error) -> SourceError {
        SourceError::Io(e)
    }
}

/// The message of an I/O error whose own text is `os_text`.
pub open spec fn io_message_text(os_text: Seq<char>) -> Seq<char> {
    "I/O error: "@ + os_text
}

/// The message of an I/O error, given the error's own text (which comes from
/// the operating system): `"I/O error: "` followed by that text.
pub fn io_message(os_text: &str) -> (text: String)
    ensures
        text@ == io_message_text(os_text@),
{
    let mut text = String::from_str("I/O error: ");
    push_str(&mut text, os_text);
    text
}

impl SourceError {
    /// The message shown to the user: `"I/O error: "` followed by the error's
    /// own text for an I/O error, the message itself for a format error.
    pub fn message(&self) -> (text: String)
        ensures
            self matches SourceError::Format(m) ==> text@ == m@,
            self matches SourceError::Io(_) ==> exists|os_text: Seq<char>|
                text@ == #[trigger] io_message_text(os_text),
    {
        match self {
            SourceError::Io(e) => {
                let t = io_error_text(e);
                let text = io_message(t.as_str());
                assert(text@ == io_message_text(t@));
                text
            },
            SourceError::Format(m) => m.clone(),
        }
    }
}

} // verus!
