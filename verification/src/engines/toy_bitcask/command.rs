//! The records of the log, and the pointer that the key directory keeps to
//! the latest record of a key.
//!
//! A `Put` record is what a `set` appends; on disk its tag is `Set`.

use crate::decimal::{push_signed_decimal, signed_decimal};
use crate::errors::KvsError;
use crate::json::{codec_error, json_string, json_text_of, Json};
use chrono::{DateTime, Utc};
use std::time::SystemTime;
use vstd::prelude::*;
use vstd::string::StringExecFns;

verus! {

/// One record of the log.
#[derive(Debug)]
pub enum Command {
    /// `key` is given `value`.
    Put { timestamp: i64, key: String, value: String },
    /// `key` is removed.
    Remove { timestamp: i64, key: String },
}

/// A record as contracts see it: strings by their characters.
pub enum Record {
    Put { timestamp: i64, key: Seq<char>, value: Seq<char> },
    Remove { timestamp: i64, key: Seq<char> },
}

impl Record {
    /// The key that the record is about.
    pub open spec fn key(self) -> Seq<char> {
        match self {
            Record::Put { key, .. } => key,
            Record::Remove { key, .. } => key,
        }
    }
}

impl View for Command {
    type V = Record;

    open spec fn view(&self) -> Record {
        match self {
            Command::Put { timestamp, key, value } => Record::Put {
                timestamp: *timestamp,
                key: key@,
                value: value@,
            },
            Command::Remove { timestamp, key } => Record::Remove { timestamp: *timestamp, key: key@ },
        }
    }
}

/// Why a JSON value is no record.
pub enum Refusal {
    /// It is not an object with one member, or the member lacks a field
    /// of the command.
    Malformed,
    /// Its tag names no command.
    UnknownTag,
}

/// The fields of a `Put` record, read from the member tagged `Set`.
pub open spec fn put_of(body: Json) -> Result<Record, Refusal> {
    match (body.member("timestamp"@), body.member("key"@), body.member("value"@)) {
        (Some(Json::Number(Some(timestamp))), Some(Json::Text(key)), Some(Json::Text(value))) => Ok(
            Record::Put { timestamp, key: key@, value: value@ },
        ),
        _ => Err(Refusal::Malformed),
    }
}

/// The fields of a `Remove` record, read from the member tagged `Remove`.
pub open spec fn remove_of(body: Json) -> Result<Record, Refusal> {
    match (body.member("timestamp"@), body.member("key"@)) {
        (Some(Json::Number(Some(timestamp))), Some(Json::Text(key))) => Ok(
            Record::Remove { timestamp, key: key@ },
        ),
        _ => Err(Refusal::Malformed),
    }
}

/// The record that a JSON value stands for: an object with one member,
/// whose name is the tag `Set` or `Remove` and whose value is an object with
/// the fields of that command. Other fields are passed over.
pub open spec fn record_of(json: Json) -> Result<Record, Refusal> {
    match json {
        Json::Object(members) => if members@.len() != 1 {
            Err(Refusal::Malformed)
        } else if members@[0].0@ == "Set"@ {
            put_of(members@[0].1)
        } else if members@[0].0@ == "Remove"@ {
            remove_of(members@[0].1)
        } else {
            Err(Refusal::UnknownTag)
        },
        _ => Err(Refusal::Malformed),
    }
}

/// The text of a record in the log: an object with the record's tag, and
/// under it the timestamp, the key and, for a `Put`, the value, without
/// white space.
pub open spec fn encoding(record: Record) -> Seq<char> {
    match record {
        Record::Put { timestamp, key, value } => "{\"Set\":{\"timestamp\":"@ + signed_decimal(timestamp)
            + ",\"key\":"@ + json_string(key) + ",\"value\":"@ + json_string(value) + "}}"@,
        Record::Remove { timestamp, key } => "{\"Remove\":{\"timestamp\":"@ + signed_decimal(timestamp)
            + ",\"key\":"@ + json_string(key) + "}}"@,
    }
}

/// `DateTime::<Utc>::from(SystemTime::now()).timestamp()`: the seconds since
/// the Unix epoch on the system clock, below zero where the clock stands
/// before 1970. The result follows the clock, so nothing is claimed of it.
#[verifier::external_body]
fn unix_timestamp() -> (seconds: i64) {
    DateTime::<Utc>::from(SystemTime::now()).timestamp()
}

impl Command {
    /// The record that gives `key` the `value`, stamped `timestamp`.
    pub fn set_at(timestamp: i64, key: String, value: String) -> (cmd: Command)
        ensures
            cmd == (Command::Put { timestamp, key, value }),
    {
        Command::Put { timestamp, key, value }
    }

    /// The record that removes `key`, stamped `timestamp`.
    pub fn remove_at(timestamp: i64, key: String) -> (cmd: Command)
        ensures
            cmd == (Command::Remove { timestamp, key }),
    {
        Command::Remove { timestamp, key }
    }

    /// The record that gives `key` the `value`, stamped with the current
    /// time in seconds.
    pub fn set(key: String, value: String) -> (cmd: Command)
        ensures
            exists|timestamp: i64| cmd == (Command::Put { timestamp, key, value }),
    {
        let timestamp = unix_timestamp();
        Command::set_at(timestamp, key, value)
    }

    /// The record that removes `key`, stamped with the current time in
    /// seconds.
    pub fn remove(key: String) -> (cmd: Command)
        ensures
            exists|timestamp: i64| cmd == (Command::Remove { timestamp, key }),
    {
        let timestamp = unix_timestamp();
        Command::remove_at(timestamp, key)
    }

    /// The text of the record, as it is appended to the log. The strings
    /// are written by the JSON encoder, which does not fail on a string.
    pub fn encode(&self) -> (text: Result<String, KvsError>)
        ensures
            text matches Ok(written) && written@ == encoding(self@),
    {
        match self {
            Command::Put { timestamp, key, value } => {
                let key_text = match json_text_of(key.as_str()) {
                    Ok(written) => written,
                    Err(e) => {
                        return Err(KvsError::SerdeError(e));
                    },
                };
                let value_text = match json_text_of(value.as_str()) {
                    Ok(written) => written,
                    Err(e) => {
                        return Err(KvsError::SerdeError(e));
                    },
                };
                let mut out = String::from_str("{\"Set\":{\"timestamp\":");
                push_signed_decimal(&mut out, *timestamp);
                out.append(",\"key\":");
                out.append(key_text.as_str());
                out.append(",\"value\":");
                out.append(value_text.as_str());
                out.append("}}");
                Ok(out)
            },
            Command::Remove { timestamp, key } => {
                let key_text = match json_text_of(key.as_str()) {
                    Ok(written) => written,
                    Err(e) => {
                        return Err(KvsError::SerdeError(e));
                    },
                };
                let mut out = String::from_str("{\"Remove\":{\"timestamp\":");
                push_signed_decimal(&mut out, *timestamp);
                out.append(",\"key\":");
                out.append(key_text.as_str());
                out.append("}}");
                Ok(out)
            },
        }
    }

    /// The record that a JSON value stands for.
    ///
    /// A value that is not an object with one member, or whose member lacks
    /// a field of the command, is refused with `SerdeError`; a tag other
    /// than `Set` and `Remove` with `UnknownCommand`.
    pub fn from_json(json: &Json) -> (cmd: Result<Command, KvsError>)
        ensures
            match record_of(*json) {
                Ok(record) => cmd matches Ok(c) && c@ == record,
                Err(Refusal::Malformed) => cmd matches Err(e) && e is SerdeError,
                Err(Refusal::UnknownTag) => cmd matches Err(e) && e is UnknownCommand,
            },
    {
        let members = match json {
            Json::Object(members) => members,
            _ => {
                return Err(KvsError::SerdeError(codec_error("a command is an object")));
            },
        };
        if members.len() != 1 {
            return Err(KvsError::SerdeError(codec_error("a command has one tag")));
        }
        let tag = &members[0].0;
        let body = &members[0].1;
        let is_put = *tag == "Set".to_owned();
        let is_remove = *tag == "Remove".to_owned();
        if !is_put && !is_remove {
            return Err(KvsError::UnknownCommand);
        }
        let timestamp = match body.get("timestamp") {
            Some(Json::Number(Some(timestamp))) => *timestamp,
            _ => {
                return Err(KvsError::SerdeError(codec_error("a command has a timestamp")));
            },
        };
        let key = match body.get("key") {
            Some(Json::Text(key)) => key.clone(),
            _ => {
                return Err(KvsError::SerdeError(codec_error("a command has a key")));
            },
        };
        if is_put {
            match body.get("value") {
                Some(Json::Text(value)) => Ok(Command::Put { timestamp, key, value: value.clone() }),
                _ => Err(KvsError::SerdeError(codec_error("a set command has a value"))),
            }
        } else {
            Ok(Command::Remove { timestamp, key })
        }
    }
}

/// Where the latest `Put` record of a key lies: the log file, the offset of
/// the record's first byte in it, and the number of bytes the record takes.
#[derive(Clone, Copy, Debug, PartialEq, Eq, Structural)]
pub struct CommandMeta {
    /// The id of the log file that holds the record.
    pub file_id: u64,
    /// The offset of the record in the file.
    pub position: u64,
    /// The length of the record in bytes.
    pub size: u64,
}

impl From<(u64, u64, u64)> for CommandMeta {
    fn from(parts: (u64, u64, u64)) -> (meta: CommandMeta) {
        CommandMeta { file_id: parts.0, position: parts.1, size: parts.2 }
    }
}

impl vstd::std_specs::convert::FromSpecImpl<(u64, u64, u64)> for CommandMeta {
    open spec fn obeys_from_spec() -> bool {
        true
    }

    open spec fn from_spec(parts: (u64, u64, u64)) -> CommandMeta {
        CommandMeta { file_id: parts.0, position: parts.1, size: parts.2 }
    }
}

impl CommandMeta {
    /// The offset just past the record.
    pub open spec fn end(self) -> int {
        self.position + self.size
    }
}

} // verus!
