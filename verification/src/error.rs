//! IMAP error types.

use crate::response::{ServerResponse, StatusCode};
use crate::utils::{push_str, to_owned_string};
use vstd::prelude::*;

verus! {

#[verifier::external_type_specification]
#[verifier::external_body]
pub struct ExIoError(std::io::Error);

#[verifier::external_type_specification]
#[verifier::external_body]
pub struct ExDecodeError(base64::DecodeError);

#[verifier::external_type_specification]
#[verifier::external_body]
pub struct ExUtf8Error(std::str::Utf8Error);

/// A convenience wrapper around `Result` for `imap::Error`.
pub type Result<T> = std::result::Result<T, Error>;

/// A BAD response from the server, which indicates an error message from the server.
#[derive(Debug)]
pub struct Bad {
    /// Human-redable message included with the Bad response.
    pub information: String,
    /// A more specific error status code included with the Bad response.
    pub code: Option<StatusCode>,
}

/// A NO response from the server, which indicates an operational error message from the server.
#[derive(Debug)]
pub struct No {
    /// Human-redable message included with the NO response.
    pub information: String,
    /// A more specific error status code included with the NO response.
    pub code: Option<StatusCode>,
}

/// A set of errors that can occur in the IMAP client.
#[derive(Debug)]
pub enum Error {
    /// An `io::Error` that occurred while trying to read or write to a network stream.
    Io(std::io::Error),
    /// A BAD response from the IMAP server.
    Bad(Bad),
    /// A NO response from the IMAP server.
    No(No),
    /// The connection was terminated unexpectedly.
    ConnectionLost,
    /// Error parsing a server response.
    Parse(ParseError),
    /// Command inputs were not valid [IMAP
    /// strings](https://tools.ietf.org/html/rfc3501#section-4.3).
    Validate(ValidateError),
    /// Error appending an e-mail.
    Append,
    /// An unexpected response was received.
    Unexpected(ServerResponse),
    /// A `STATUS` command got no `STATUS` response for the mailbox it asked about.
    MissingStatusResponse,
    /// `STARTTLS` was required but the server does not offer it.
    StartTlsNotAvailable,
    /// A TLS connection was asked for but no TLS backend is available.
    TlsNotConfigured,
}

impl From<std::io::Error> for Error {
    fn from(err: std::io::Error) -> (e: Error)
        ensures
            e == Error::Io(err),
    {
        Error::Io(err)
    }
}

impl vstd::std_specs::convert::FromSpecImpl<std::io::Error> for Error {
    open spec fn obeys_from_spec() -> bool {
        true
    }

    open spec fn from_spec(err: std::io::Error) -> Error {
        Error::Io(err)
    }
}

impl From<ParseError> for Error {
    fn from(err: ParseError) -> (e: Error)
        ensures
            e == Error::Parse(err),
    {
        Error::Parse(err)
    }
}

impl vstd::std_specs::convert::FromSpecImpl<ParseError> for Error {
    open spec fn obeys_from_spec() -> bool {
        true
    }

    open spec fn from_spec(err: ParseError) -> Error {
        Error::Parse(err)
    }
}

/// An error occured while trying to parse a server response.
#[derive(Debug)]
pub enum ParseError {
    /// Indicates an error parsing the status response. Such as OK, NO, and BAD.
    Invalid(Vec<u8>),
    /// The client could not find or decode the server's authentication challenge.
    Authentication(String, Option<base64::DecodeError>),
    /// The client received data that was not UTF-8 encoded.
    DataNotUtf8(Vec<u8>, std::str::Utf8Error),
}

/// An [invalid character](https://tools.ietf.org/html/rfc3501#section-4.3) was found in an input
/// string.
#[derive(Debug)]
pub struct ValidateError(pub char);

/// The text that the display form of a [`ParseError`] shows.
pub open spec fn parse_error_text(e: ParseError) -> Seq<char> {
    match e {
        ParseError::Invalid(_) => "Unable to parse status response"@,
        ParseError::Authentication(_, _) => "Unable to parse authentication response"@,
        ParseError::DataNotUtf8(_, _) => "Unable to parse data as UTF-8 text"@,
    }
}

impl ParseError {
    /// The human-readable description of this error.
    pub fn description(&self) -> (s: &'static str)
        ensures
            s@ == parse_error_text(*self),
    {
        proof {
            reveal_strlit("Unable to parse status response");
            reveal_strlit("Unable to parse authentication response");
            reveal_strlit("Unable to parse data as UTF-8 text");
        }
        match self {
            ParseError::Invalid(_) => "Unable to parse status response",
            ParseError::Authentication(_, _) => "Unable to parse authentication response",
            ParseError::DataNotUtf8(_, _) => "Unable to parse data as UTF-8 text",
        }
    }
}

impl ParseError {
    /// The message of this error: its description ([`parse_error_text`]).
    pub fn to_string(&self) -> (s: String)
        ensures
            s@ == parse_error_text(*self),
    {
        to_owned_string(self.description())
    }
}

/// How `Debug` writes a character: between single quotes, with special characters escaped.
pub uninterp spec fn char_debug_text(c: char) -> Seq<char>;

/// Writes a character with `format!("{:?}", c)`. The contract claims that the text depends on
/// the character alone; which text it is, is not stated.
#[verifier::external_body]
fn char_debug(c: char) -> (s: String)
    ensures
        s@ == char_debug_text(c),
{
    format!("{:?}", c)
}

/// The text of an I/O error, as its `Display` writes it. Nothing is stated of it: the text comes
/// from the operating system.
#[verifier::external_body]
fn io_error_text(e: &std::io::Error) -> (s: String) {
    e.to_string()
}

/// The description of an I/O error, as the deprecated `std::error::Error::description` gives
/// it. Nothing is stated of it.
#[verifier::external_body]
#[allow(deprecated)]
fn io_error_description(e: &std::io::Error) -> (s: &str) {
    std::error::Error::description(e)
}

/// How `Debug` writes a response. Nothing is stated of the text: it is what `derive` wrote.
#[verifier::external_body]
fn response_debug(r: &ServerResponse) -> (s: String) {
    format!("{:?}", r)
}

impl ValidateError {
    /// The message of this error: the invalid character, as `Debug` writes it, after
    /// `Invalid character in input: `.
    pub fn to_string(&self) -> (s: String)
        ensures
            s@ == "Invalid character in input: "@ + char_debug_text(self.0),
    {
        let mut s = "Invalid character in input: ".to_owned();
        let c = char_debug(self.0);
        push_str(&mut s, c.as_str());
        s
    }

    /// A short description of this kind of error.
    pub fn description(&self) -> (s: &'static str)
        ensures
            s@ == "Invalid character in input"@,
    {
        "Invalid character in input"
    }
}

impl Bad {
    /// The message: the server's explanation.
    pub fn to_string(&self) -> (s: String)
        ensures
            s@ == self.information@,
    {
        to_owned_string(self.information.as_str())
    }
}

impl No {
    /// The message: the server's explanation.
    pub fn to_string(&self) -> (s: String)
        ensures
            s@ == self.information@,
    {
        to_owned_string(self.information.as_str())
    }
}

/// The description of an error that does not come from I/O.
pub open spec fn error_description(e: Error) -> Seq<char> {
    match e {
        Error::Io(_) => seq![],
        Error::Parse(p) => parse_error_text(p),
        Error::Validate(_) => "Invalid character in input"@,
        Error::Bad(_) => "Bad Response"@,
        Error::No(_) => "No Response"@,
        Error::ConnectionLost => "Connection lost"@,
        Error::Append => "Could not append mail to mailbox"@,
        Error::Unexpected(_) => "Unexpected Response"@,
        Error::MissingStatusResponse => "Missing STATUS Response"@,
        Error::StartTlsNotAvailable => "StartTls is not available on the server"@,
        Error::TlsNotConfigured => "TLS was requested, but no TLS features are enabled"@,
    }
}

/// The message of an error that does not come from I/O; for an unexpected response, the part
/// before the response's `Debug` text.
pub open spec fn error_text(e: Error) -> Seq<char> {
    match e {
        Error::Io(_) => seq![],
        Error::Parse(p) => parse_error_text(p),
        Error::Validate(v) => "Invalid character in input: "@ + char_debug_text(v.0),
        Error::Bad(b) => "Bad Response: "@ + b.information@,
        Error::No(n) => "No Response: "@ + n.information@,
        Error::ConnectionLost => "Connection Lost"@,
        Error::Append => "Could not append mail to mailbox"@,
        Error::Unexpected(_) => "Unexpected Response: "@,
        Error::MissingStatusResponse => "Missing STATUS Response"@,
        Error::StartTlsNotAvailable => "StartTls is not available on the server"@,
        Error::TlsNotConfigured => "TLS was requested, but no TLS features are enabled"@,
    }
}

impl Error {
    /// A short description of this error ([`error_description`]); an I/O error describes itself.
    pub fn description(&self) -> (s: &str)
        ensures
            !(self is Io) ==> s@ == error_description(*self),
    {
        match self {
            Error::Io(e) => io_error_description(e),
            Error::Parse(e) => e.description(),
            Error::Validate(e) => e.description(),
            Error::Bad(_) => "Bad Response",
            Error::No(_) => "No Response",
            Error::ConnectionLost => "Connection lost",
            Error::Append => "Could not append mail to mailbox",
            Error::Unexpected(_) => "Unexpected Response",
            Error::MissingStatusResponse => "Missing STATUS Response",
            Error::StartTlsNotAvailable => "StartTls is not available on the server",
            Error::TlsNotConfigured => "TLS was requested, but no TLS features are enabled",
        }
    }

    /// The message of this error ([`error_text`]): an I/O error's own text; for an unexpected
    /// response, the response's `Debug` text follows.
    pub fn to_string(&self) -> (s: String)
        ensures
            self is Unexpected ==> error_text(*self).is_prefix_of(s@),
            !(self is Io) && !(self is Unexpected) ==> s@ == error_text(*self),
    {
        match self {
            Error::Io(e) => io_error_text(e),
            Error::Parse(e) => e.to_string(),
            Error::Validate(e) => e.to_string(),
            Error::Bad(b) => {
                let mut s = "Bad Response: ".to_owned();
                push_str(&mut s, b.information.as_str());
                s
            },
            Error::No(n) => {
                let mut s = "No Response: ".to_owned();
                push_str(&mut s, n.information.as_str());
                s
            },
            Error::ConnectionLost => "Connection Lost".to_owned(),
            Error::Append => "Could not append mail to mailbox".to_owned(),
            Error::Unexpected(r) => {
                let mut s = "Unexpected Response: ".to_owned();
                let t = response_debug(r);
                proof {
                    reveal_strlit("Unexpected Response: ");
                }
                push_str(&mut s, t.as_str());
                assert(s@.subrange(0, error_text(*self).len() as int) =~= error_text(*self));
                s
            },
            Error::MissingStatusResponse => "Missing STATUS Response".to_owned(),
            Error::StartTlsNotAvailable => "StartTls is not available on the server".to_owned(),
            Error::TlsNotConfigured => "TLS was requested, but no TLS features are enabled".to_owned(),
        }
    }
}

} // verus!
