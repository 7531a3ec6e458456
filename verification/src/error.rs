//! The error type shared by every operation of the crate.

use vstd::prelude::*;
use vstd::std_specs::convert::FromSpecImpl;
use vstd::string::*;
use serde_json::Error as JsonError;

verus! {

/// `serde_json::Error`, carried as it is.
#[verifier::external_type_specification]
#[verifier::external_body]
pub struct ExJsonError(JsonError);

/// `freechains::ClientError`, carried as it is.
#[verifier::external_type_specification]
#[verifier::external_body]
pub struct ExClientError(freechains::ClientError);

/// `std::io::Error`, carried as it is.
#[verifier::external_type_specification]
#[verifier::external_body]
pub struct ExIoError(std::io::Error);

/// What can go wrong while sharing, searching, uploading or downloading.
#[derive(Debug)]
pub enum Error {
    /// A payload could not be turned into JSON or back.
    SerdeJsonError(JsonError),
    /// The Freechains node refused or failed a request.
    FreechainsError(freechains::ClientError),
    /// Reading the input or writing the output failed.
    IoError(std::io::Error),
    /// The caller handed in something unusable; the text says what.
    InputError(String),
    /// The post `.1` of chain `.0` does not hold base64 content.
    InvalidContentError(String, String),
    /// The post `.1` of chain `.0` has too low a reputation to be trusted.
    LowReputationError(String, String),
}

/// An [`Error`] as contracts see it: the variant, and the text of the variants that
/// the crate itself raises.
pub enum ErrorView {
    SerdeJson,
    Freechains,
    Io,
    Input(Seq<char>),
    InvalidContent(Seq<char>, Seq<char>),
    LowReputation(Seq<char>, Seq<char>),
}

impl View for Error {
    type V = ErrorView;

    open spec fn view(&self) -> ErrorView {
        match self {
            Error::SerdeJsonError(_) => ErrorView::SerdeJson,
            Error::FreechainsError(_) => ErrorView::Freechains,
            Error::IoError(_) => ErrorView::Io,
            Error::InputError(why) => ErrorView::Input(why@),
            Error::InvalidContentError(chain, post) => ErrorView::InvalidContent(chain@, post@),
            Error::LowReputationError(chain, post) => ErrorView::LowReputation(chain@, post@),
        }
    }
}

impl ErrorView {
    /// The message of an error that the crate itself raises; `None` for an error that
    /// was handed up from JSON, the node or the operating system.
    pub open spec fn text(self) -> Option<Seq<char>> {
        match self {
            ErrorView::Input(why) => Some("Invalid input: "@ + why),
            ErrorView::InvalidContent(chain, post) => Some(
                "Invalid content on chain \""@ + chain + "\", post \""@ + post + "\""@,
            ),
            ErrorView::LowReputation(chain, post) => Some(
                "Low reputation content on chain \""@ + chain + "\", post \""@ + post + "\""@,
            ),
            _ => None,
        }
    }
}

/// `<serde_json::Error as Display>::fmt`, through `to_string`. Nothing is claimed of
/// the text.
#[verifier::external_body]
fn serde_json_error_text(e: &JsonError) -> String {
    e.to_string()
}

/// `<freechains::ClientError as Display>::fmt`, through `to_string`. Nothing is
/// claimed of the text.
#[verifier::external_body]
fn client_error_text(e: &freechains::ClientError) -> String {
    e.to_string()
}

/// `<std::io::Error as Display>::fmt`, through `to_string`. Nothing is claimed of the
/// text.
#[verifier::external_body]
fn io_error_text(e: &std::io::Error) -> String {
    e.to_string()
}

impl Error {
    /// The message to show to a person.
    pub fn message(&self) -> (text: String)
        ensures
            self@.text() matches Some(expected) ==> text@ == expected,
    {
        match self {
            Error::SerdeJsonError(e) => serde_json_error_text(e),
            Error::FreechainsError(e) => client_error_text(e),
            Error::IoError(e) => io_error_text(e),
            Error::InputError(why) => String::from_str("Invalid input: ").concat(why.as_str()),
            Error::InvalidContentError(chain, post) => String::from_str(
                "Invalid content on chain \"",
            ).concat(chain.as_str()).concat("\", post \"").concat(post.as_str()).concat("\""),
            Error::LowReputationError(chain, post) => String::from_str(
                "Low reputation content on chain \"",
            ).concat(chain.as_str()).concat("\", post \"").concat(post.as_str()).concat("\""),
        }
    }
}

impl From<JsonError> for Error {
    fn from(e: JsonError) -> (r: Error) {
        Error::SerdeJsonError(e)
    }
}

impl FromSpecImpl<JsonError> for Error {
    open spec fn obeys_from_spec() -> bool {
        true
    }

    open spec fn from_spec(e: JsonError) -> Error {
        Error::SerdeJsonError(e)
    }
}

impl From<freechains::ClientError> for Error {
    fn from(e: freechains::ClientError) -> (r: Error) {
        Error::FreechainsError(e)
    }
}

impl FromSpecImpl<freechains::ClientError> for Error {
    open spec fn obeys_from_spec() -> bool {
        true
    }

    open spec fn from_spec(e: freechains::ClientError) -> Error {
        Error::FreechainsError(e)
    }
}

impl From<std::io::Error> for Error {
    fn from(e: std::io::Error) -> (r: Error) {
        Error::IoError(e)
    }
}

impl FromSpecImpl<std::io::Error> for Error {
    open spec fn obeys_from_spec() -> bool {
        true
    }

    open spec fn from_spec(e: std::io::Error) -> Error {
        Error::IoError(e)
    }
}

} // verus!
