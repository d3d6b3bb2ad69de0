//! The error kinds shared by the engines, the client and the server.

use std::string::FromUtf8Error;
use vstd::prelude::*;
use vstd::string::StringExecFns;

verus! {

/// `std::io::Error`: what a file or a socket failed with. It is carried,
/// and printed in a message.
#[verifier::external_type_specification]
#[verifier::external_body]
pub struct ExIoError(std::io::Error);

/// `serde_json::Error`: what the JSON parser or encoder failed with. It is
/// carried, and printed in a message.
#[verifier::external_type_specification]
#[verifier::external_body]
pub struct ExSerdeJsonError(serde_json::Error);

/// `sled::Error`: what the embedded B-tree failed with. It is carried, and
/// printed in a message.
#[verifier::external_type_specification]
#[verifier::external_body]
pub struct ExSledError(sled::Error);

/// `std::string::FromUtf8Error`: what `String::from_utf8` refuses bytes
/// with. It is carried, and printed in a message.
#[verifier::external_type_specification]
#[verifier::external_body]
pub struct ExFromUtf8Error(FromUtf8Error);

/// Everything that can go wrong in the store, its engines and its protocol.
#[derive(Debug)]
pub enum KvsError {
    /// The embedded B-tree engine reported an error of its own.
    SledError(sled::Error),
    /// A file or a socket failed.
    IOError(std::io::Error),
    /// A record, a request or a response could not be encoded or decoded.
    SerdeError(serde_json::Error),
    /// Bytes that had to be a string were not UTF-8.
    EncodingError(FromUtf8Error),
    /// The key is not in the store.
    KeyNotFound,
    /// A log record carries a tag that is not a known command.
    UnknownCommand,
    /// The key directory points into a log file that is gone.
    LogFileNotFound,
    /// The engine marker names no known engine.
    UnknownEngineType,
    /// The data directory belongs to another engine than the one asked for.
    IncompatibleEngineType,
    /// The server answered a request with this error message.
    ServerErrorMessage(String),
}

/// `std::fmt::Display` of `std::io::Error`: the text depends on the platform,
/// so nothing is claimed of it.
#[verifier::external_body]
fn io_error_text(e: &std::io::Error) -> (text: String) {
    format!("{}", e)
}

/// `std::fmt::Display` of `serde_json::Error`: the message with the line and
/// column where decoding stopped. Nothing is claimed of the text.
#[verifier::external_body]
fn serde_error_text(e: &serde_json::Error) -> (text: String) {
    format!("{}", e)
}

/// `std::fmt::Display` of `sled::Error`. Nothing is claimed of the text.
#[verifier::external_body]
fn sled_error_text(e: &sled::Error) -> (text: String) {
    format!("{}", e)
}

/// `std::fmt::Display` of `std::string::FromUtf8Error`. Nothing is claimed of
/// the text.
#[verifier::external_body]
fn utf8_error_text(e: &FromUtf8Error) -> (text: String) {
    format!("{}", e)
}

impl From<std::io::Error> for KvsError {
    fn from(err: std::io::Error) -> (e: KvsError) {
        KvsError::IOError(err)
    }
}

impl vstd::std_specs::convert::FromSpecImpl<std::io::Error> for KvsError {
    open spec fn obeys_from_spec() -> bool {
        true
    }

    open spec fn from_spec(err: std::io::Error) -> KvsError {
        KvsError::IOError(err)
    }
}

impl From<serde_json::Error> for KvsError {
    fn from(err: serde_json::Error) -> (e: KvsError) {
        KvsError::SerdeError(err)
    }
}

impl vstd::std_specs::convert::FromSpecImpl<serde_json::Error> for KvsError {
    open spec fn obeys_from_spec() -> bool {
        true
    }

    open spec fn from_spec(err: serde_json::Error) -> KvsError {
        KvsError::SerdeError(err)
    }
}

impl From<sled::Error> for KvsError {
    fn from(err: sled::Error) -> (e: KvsError) {
        KvsError::SledError(err)
    }
}

impl vstd::std_specs::convert::FromSpecImpl<sled::Error> for KvsError {
    open spec fn obeys_from_spec() -> bool {
        true
    }

    open spec fn from_spec(err: sled::Error) -> KvsError {
        KvsError::SledError(err)
    }
}

impl From<FromUtf8Error> for KvsError {
    fn from(err: FromUtf8Error) -> (e: KvsError) {
        KvsError::EncodingError(err)
    }
}

impl vstd::std_specs::convert::FromSpecImpl<FromUtf8Error> for KvsError {
    open spec fn obeys_from_spec() -> bool {
        true
    }

    open spec fn from_spec(err: FromUtf8Error) -> KvsError {
        KvsError::EncodingError(err)
    }
}

impl KvsError {
    /// What the message of this error starts with. For the kinds that carry
    /// no cause this is the whole message.
    pub open spec fn prefix(&self) -> Seq<char> {
        match self {
            KvsError::SledError(_) => "sled error: "@,
            KvsError::IOError(_) => "io error: "@,
            KvsError::SerdeError(_) => "serde error: "@,
            KvsError::EncodingError(_) => "encoding error: "@,
            KvsError::KeyNotFound => "Key not found"@,
            KvsError::UnknownCommand => "Unknown command"@,
            KvsError::LogFileNotFound => "toy bitcask error: Log file not found"@,
            KvsError::UnknownEngineType => "Unknown engine type"@,
            KvsError::IncompatibleEngineType => "Incompatible engine type"@,
            KvsError::ServerErrorMessage(_) => "server error: "@,
        }
    }

    /// Whether the message of this error is its prefix and nothing more.
    pub open spec fn is_plain(&self) -> bool {
        match self {
            KvsError::KeyNotFound
            | KvsError::UnknownCommand
            | KvsError::LogFileNotFound
            | KvsError::UnknownEngineType
            | KvsError::IncompatibleEngineType => true,
            _ => false,
        }
    }

    /// The message of this error, given the text of what caused it.
    pub open spec fn message_with(&self, cause: Seq<char>) -> Seq<char> {
        if self.is_plain() {
            self.prefix()
        } else {
            self.prefix() + cause
        }
    }

    /// Whether `text` is a message of this error: the prefix alone for
    /// the kinds without a cause, the prefix and the server's message for a
    /// server error, and the prefix and some text for the others.
    pub open spec fn is_message(&self, text: Seq<char>) -> bool {
        &&& self.is_plain() ==> text == self.prefix()
        &&& self matches KvsError::ServerErrorMessage(m) ==> text == self.prefix() + m@
        &&& exists|cause: Seq<char>| text == self.message_with(cause)
    }

    /// The human-readable message, as it is sent to clients and printed.
    ///
    /// The text of a cause from outside (an I/O, codec, encoding or sled
    /// error) is whatever that error prints; the message of a server error
    /// ends in the message the server sent.
    pub fn message(&self) -> (text: String)
        ensures
            self.is_message(text@),
    {
        match self {
            KvsError::SledError(e) => {
                let cause = sled_error_text(e);
                let text = String::from_str("sled error: ").concat(cause.as_str());
                assert(text@ == self.message_with(cause@));
                text
            },
            KvsError::IOError(e) => {
                let cause = io_error_text(e);
                let text = String::from_str("io error: ").concat(cause.as_str());
                assert(text@ == self.message_with(cause@));
                text
            },
            KvsError::SerdeError(e) => {
                let cause = serde_error_text(e);
                let text = String::from_str("serde error: ").concat(cause.as_str());
                assert(text@ == self.message_with(cause@));
                text
            },
            KvsError::EncodingError(e) => {
                let cause = utf8_error_text(e);
                let text = String::from_str("encoding error: ").concat(cause.as_str());
                assert(text@ == self.message_with(cause@));
                text
            },
            KvsError::KeyNotFound => {
                let text = String::from_str("Key not found");
                assert(text@ == self.message_with(Seq::empty()));
                text
            },
            KvsError::UnknownCommand => {
                let text = String::from_str("Unknown command");
                assert(text@ == self.message_with(Seq::empty()));
                text
            },
            KvsError::LogFileNotFound => {
                let text = String::from_str("toy bitcask error: Log file not found");
                assert(text@ == self.message_with(Seq::empty()));
                text
            },
            KvsError::UnknownEngineType => {
                let text = String::from_str("Unknown engine type");
                assert(text@ == self.message_with(Seq::empty()));
                text
            },
            KvsError::IncompatibleEngineType => {
                let text = String::from_str("Incompatible engine type");
                assert(text@ == self.message_with(Seq::empty()));
                text
            },
            KvsError::ServerErrorMessage(m) => {
                let text = String::from_str("server error: ").concat(m.as_str());
                assert(text@ == self.message_with(m@));
                text
            },
        }
    }
}

} // verus!
