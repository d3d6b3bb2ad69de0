//! What the command lines say: the engine to serve with, and the command to
//! run against a store.

use crate::engines::KvsEngine;
use crate::errors::KvsError;
use vstd::prelude::*;
use vstd::string::StringExecFns;

verus! {

/// The storage engines that a server can run.
#[allow(non_camel_case_types)]
#[derive(Debug, Copy, Clone, PartialEq, Eq, Structural)]
pub enum EngineType {
    kvs,
    sled,
}

impl EngineType {
    /// The name of the engine, as it is written on the command line and in
    /// the engine marker.
    pub open spec fn spec_name(self) -> Seq<char> {
        match self {
            EngineType::kvs => "kvs"@,
            EngineType::sled => "sled"@,
        }
    }

    /// The engine that a name denotes.
    pub open spec fn spec_parse(name: Seq<char>) -> Option<EngineType> {
        if name == "kvs"@ {
            Some(EngineType::kvs)
        } else if name == "sled"@ {
            Some(EngineType::sled)
        } else {
            None
        }
    }

    /// The name of the engine: `kvs` or `sled`.
    pub fn name(&self) -> (name: String)
        ensures
            name@ == self.spec_name(),
    {
        match self {
            EngineType::kvs => String::from_str("kvs"),
            EngineType::sled => String::from_str("sled"),
        }
    }

    /// The engine that a name denotes, if it is `kvs` or `sled`.
    pub fn parse(name: &str) -> (engine: Option<EngineType>)
        ensures
            engine == EngineType::spec_parse(name@),
    {
        let name = String::from_str(name);
        if name == String::from_str("kvs") {
            Some(EngineType::kvs)
        } else if name == String::from_str("sled") {
            Some(EngineType::sled)
        } else {
            None
        }
    }
}

/// The name of an engine denotes that engine.
pub proof fn engine_name_round_trip(engine: EngineType)
    ensures
        EngineType::spec_parse(engine.spec_name()) == Some(engine),
{
    reveal_strlit("kvs");
    reveal_strlit("sled");
    assert("kvs"@.len() != "sled"@.len());
}

/// One command of the stand-alone command line.
#[allow(non_camel_case_types)]
#[derive(Clone, Debug)]
pub enum Command {
    /// Get the string value of a string key.
    get { key: String },
    /// Set a string key mapped to a string value.
    set { key: String, value: String },
    /// Remove a key-value pair with the given string key.
    rm { key: String },
}

/// The stand-alone command line.
#[derive(Debug)]
pub struct KvsCliOption {
    pub command: Command,
}

/// What a command line program does once its command has run.
#[derive(Debug)]
pub struct Report {
    /// A line for the standard output, if there is one.
    pub stdout: Option<String>,
    /// A line for the standard error, if there is one.
    pub stderr: Option<String>,
    /// The exit code: 0 for success, 1 for failure.
    pub exit_code: i32,
}

/// Whether the error says that the key is not there, in the store itself or
/// in the words of a server.
pub open spec fn is_key_not_found(e: KvsError) -> bool {
    match e {
        KvsError::KeyNotFound => true,
        KvsError::ServerErrorMessage(message) => message@ == "Key not found"@,
        _ => false,
    }
}

/// Whether the error says that the key is not there.
fn key_not_found(e: &KvsError) -> (missing: bool)
    ensures
        missing == is_key_not_found(*e),
{
    match e {
        KvsError::KeyNotFound => true,
        KvsError::ServerErrorMessage(message) => *message == "Key not found".to_owned(),
        _ => false,
    }
}

impl Report {
    /// Whether this is the report of a `get` that returned `result`: the
    /// value on the standard output; for a key without a value the line
    /// `Key not found`, which is no failure; for an error its message on
    /// the standard error, and exit code 1.
    pub open spec fn shows_get(self, result: Result<Option<String>, KvsError>) -> bool {
        match result {
            Ok(Some(value)) => self.stdout == Some(value) && self.stderr is None && self.exit_code == 0,
            Ok(None) => self.stdout matches Some(line) && line@ == "Key not found"@ && self.stderr is None
                && self.exit_code == 0,
            Err(e) => self.stdout is None && self.exit_code == 1 && (self.stderr matches Some(line)
                && e.is_message(line@)),
        }
    }

    /// Whether this is the report of a `set` that returned `result`:
    /// nothing on success; for an error its message on the standard error,
    /// and exit code 1.
    pub open spec fn shows_set(self, result: Result<(), KvsError>) -> bool {
        match result {
            Ok(_) => self.stdout is None && self.stderr is None && self.exit_code == 0,
            Err(e) => self.stdout is None && self.exit_code == 1 && (self.stderr matches Some(line)
                && e.is_message(line@)),
        }
    }

    /// Whether this is the report of a `rm` that returned `result`:
    /// nothing on success; for a key that is not there the line `Key not
    /// found` on the standard output, and exit code 1; for any other error
    /// its message on the standard error, and exit code 1.
    pub open spec fn shows_remove(self, result: Result<(), KvsError>) -> bool {
        match result {
            Ok(_) => self.stdout is None && self.stderr is None && self.exit_code == 0,
            Err(e) => self.exit_code == 1 && if is_key_not_found(e) {
                self.stderr is None && (self.stdout matches Some(line) && line@ == "Key not found"@)
            } else {
                self.stdout is None && (self.stderr matches Some(line) && e.is_message(line@))
            },
        }
    }

    /// The report of a `get` that returned `result`.
    pub fn of_get(result: Result<Option<String>, KvsError>) -> (report: Report)
        ensures
            report.shows_get(result),
    {
        match result {
            Ok(Some(value)) => Report { stdout: Some(value), stderr: None, exit_code: 0 },
            Ok(None) => Report {
                stdout: Some(String::from_str("Key not found")),
                stderr: None,
                exit_code: 0,
            },
            Err(e) => Report { stdout: None, stderr: Some(e.message()), exit_code: 1 },
        }
    }

    /// The report of a `set` that returned `result`.
    pub fn of_set(result: Result<(), KvsError>) -> (report: Report)
        ensures
            report.shows_set(result),
    {
        match result {
            Ok(_) => Report { stdout: None, stderr: None, exit_code: 0 },
            Err(e) => Report { stdout: None, stderr: Some(e.message()), exit_code: 1 },
        }
    }

    /// The report of a `rm` that returned `result`.
    pub fn of_remove(result: Result<(), KvsError>) -> (report: Report)
        ensures
            report.shows_remove(result),
    {
        match result {
            Ok(_) => Report { stdout: None, stderr: None, exit_code: 0 },
            Err(e) => {
                if key_not_found(&e) {
                    Report { stdout: Some(String::from_str("Key not found")), stderr: None, exit_code: 1 }
                } else {
                    Report { stdout: None, stderr: Some(e.message()), exit_code: 1 }
                }
            },
        }
    }
}

impl KvsCliOption {
    /// Whether `report` is what the command line shows when its command
    /// is run on `engine`: the report of a result that the engine's
    /// operation returns for the command's key and value.
    pub open spec fn shows<E: KvsEngine>(self, engine: &E, report: Report) -> bool {
        match self.command {
            Command::get { key } => exists|result: Result<Option<String>, KvsError>|
                call_ensures(E::get, (engine, key), result) && report.shows_get(result),
            Command::set { key, value } => exists|result: Result<(), KvsError>|
                call_ensures(E::set, (engine, key, value), result) && report.shows_set(result),
            Command::rm { key } => exists|result: Result<(), KvsError>|
                call_ensures(E::remove, (engine, key), result) && report.shows_remove(result),
        }
    }

    /// Runs the command on `engine`: hands its key and value to the
    /// engine's operation, and reports what the engine returned.
    pub fn run<E: KvsEngine>(self, engine: &E) -> (report: Report)
        ensures
            self.shows(engine, report),
    {
        match self.command {
            Command::get { key } => {
                let ghost asked = key;
                let result = engine.get(key);
                let ghost returned = result;
                let report = Report::of_get(result);
                assert(call_ensures(E::get, (engine, asked), returned) && report.shows_get(returned));
                report
            },
            Command::set { key, value } => {
                let ghost asked = (key, value);
                let result = engine.set(key, value);
                let ghost returned = result;
                let report = Report::of_set(result);
                assert(call_ensures(E::set, (engine, asked.0, asked.1), returned) && report.shows_set(
                    returned,
                ));
                report
            },
            Command::rm { key } => {
                let ghost asked = key;
                let result = engine.remove(key);
                let ghost returned = result;
                let report = Report::of_remove(result);
                assert(call_ensures(E::remove, (engine, asked), returned) && report.shows_remove(
                    returned,
                ));
                report
            },
        }
    }
}

} // verus!
