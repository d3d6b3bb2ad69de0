//! The requests and responses of the wire protocol.
//!
//! On the wire a response is tagged `Ok` or `Err`; here the two are called
//! `Success` and `Failure`. A `Put` request is what `set` sends.

use crate::errors::KvsError;
use crate::json::{codec_error, json_string, json_text_of, Json};
use vstd::prelude::*;
use vstd::string::StringExecFns;

verus! {

/// What a client asks of the server.
#[derive(Debug)]
pub enum Request {
    /// Give `key` the `value`.
    Put { key: String, value: String },
    /// Read the value of `key`.
    Get { key: String },
    /// Remove `key`.
    Remove { key: String },
}

/// The answer to a `Put` request.
#[derive(Debug)]
pub enum SetResponse {
    Success(()),
    Failure(String),
}

/// The answer to a `Get` request.
#[derive(Debug)]
pub enum GetResponse {
    Success(Option<String>),
    Failure(String),
}

/// The answer to a `Remove` request.
#[derive(Debug)]
pub enum RemoveResponse {
    Success(()),
    Failure(String),
}

/// The one member of an object that has one: its name and its value.
pub open spec fn tagged(json: Json) -> Option<(String, Json)> {
    match json {
        Json::Object(members) => if members@.len() == 1 {
            Some(members@[0])
        } else {
            None
        },
        _ => None,
    }
}

/// The one member of an object that has one. Anything else is refused with
/// `SerdeError`.
fn tagged_member(json: &Json) -> (member: Result<(&String, &Json), KvsError>)
    ensures
        match tagged(*json) {
            Some(found) => member matches Ok(m) && *m.0 == found.0 && *m.1 == found.1,
            None => member matches Err(e) && e is SerdeError,
        },
{
    match json {
        Json::Object(members) => {
            if members.len() == 1 {
                Ok((&members[0].0, &members[0].1))
            } else {
                Err(KvsError::SerdeError(codec_error("a message has one tag")))
            }
        },
        _ => Err(KvsError::SerdeError(codec_error("a message is an object"))),
    }
}

/// The string field `name` of a request's body.
pub open spec fn text_field(body: Json, name: Seq<char>) -> Option<String> {
    match body.member(name) {
        Some(Json::Text(text)) => Some(text),
        _ => None,
    }
}

/// The string field `name` of a request's body. A body without it is
/// refused with `SerdeError`.
fn text_field_of(body: &Json, name: &str) -> (text: Result<String, KvsError>)
    ensures
        match text_field(*body, name@) {
            Some(found) => text == Ok::<String, KvsError>(found),
            None => text matches Err(e) && e is SerdeError,
        },
{
    match body.get(name) {
        Some(Json::Text(text)) => Ok(text.clone()),
        _ => Err(KvsError::SerdeError(codec_error("a request lacks a field"))),
    }
}

/// The request that a JSON value stands for: an object with one member,
/// whose name is `Set`, `Get` or `Remove` and whose value is an object with
/// the key and, for `Set`, the value.
pub open spec fn request_of(json: Json) -> Option<Request> {
    match tagged(json) {
        Some((tag, body)) => if tag@ == "Set"@ {
            match (text_field(body, "key"@), text_field(body, "value"@)) {
                (Some(key), Some(value)) => Some(Request::Put { key, value }),
                _ => None,
            }
        } else if tag@ == "Get"@ {
            match text_field(body, "key"@) {
                Some(key) => Some(Request::Get { key }),
                None => None,
            }
        } else if tag@ == "Remove"@ {
            match text_field(body, "key"@) {
                Some(key) => Some(Request::Remove { key }),
                None => None,
            }
        } else {
            None
        },
        None => None,
    }
}

/// The text of a request on the wire.
pub open spec fn request_encoding(request: Request) -> Seq<char> {
    match request {
        Request::Put { key, value } => "{\"Set\":{\"key\":"@ + json_string(key@) + ",\"value\":"@
            + json_string(value@) + "}}"@,
        Request::Get { key } => "{\"Get\":{\"key\":"@ + json_string(key@) + "}}"@,
        Request::Remove { key } => "{\"Remove\":{\"key\":"@ + json_string(key@) + "}}"@,
    }
}

/// The text of an answer without a value: `{"Ok":null}`.
pub open spec fn success_encoding() -> Seq<char> {
    "{\"Ok\":null}"@
}

/// The text of an answer with a value.
pub open spec fn value_encoding(value: Seq<char>) -> Seq<char> {
    "{\"Ok\":"@ + json_string(value) + "}"@
}

/// The text of an answer that reports an error by its message.
pub open spec fn failure_encoding(message: Seq<char>) -> Seq<char> {
    "{\"Err\":"@ + json_string(message) + "}"@
}

/// The JSON text of a string.
fn json_text(text: &String) -> (json: Result<String, KvsError>)
    ensures
        json matches Ok(written) && written@ == json_string(text@),
{
    match json_text_of(text.as_str()) {
        Ok(written) => Ok(written),
        Err(e) => Err(KvsError::SerdeError(e)),
    }
}

/// The text of an answer that reports an error by its message.
fn encode_failure(message: &String) -> (text: Result<String, KvsError>)
    ensures
        text matches Ok(written) && written@ == failure_encoding(message@),
{
    let quoted = json_text(message)?;
    let mut out = String::from_str("{\"Err\":");
    out.append(quoted.as_str());
    out.append("}");
    Ok(out)
}

/// What an answer without a value says: success under the tag `Ok` with
/// `null`, or a message under the tag `Err`.
pub open spec fn outcome_of(json: Json) -> Option<Result<(), String>> {
    match tagged(json) {
        Some((tag, body)) => if tag@ == "Ok"@ {
            match body {
                Json::Null => Some(Ok(())),
                _ => None,
            }
        } else if tag@ == "Err"@ {
            match body {
                Json::Text(message) => Some(Err(message)),
                _ => None,
            }
        } else {
            None
        },
        None => None,
    }
}

/// What an answer without a value says. Anything else is refused with
/// `SerdeError`.
fn outcome_from_json(json: &Json) -> (outcome: Result<Result<(), String>, KvsError>)
    ensures
        match outcome_of(*json) {
            Some(found) => outcome == Ok::<Result<(), String>, KvsError>(found),
            None => outcome matches Err(e) && e is SerdeError,
        },
{
    let (tag, body) = tagged_member(json)?;
    if *tag == "Ok".to_owned() {
        match body {
            Json::Null => Ok(Ok(())),
            _ => Err(KvsError::SerdeError(codec_error("a success carries nothing"))),
        }
    } else if *tag == "Err".to_owned() {
        match body {
            Json::Text(message) => Ok(Err(message.clone())),
            _ => Err(KvsError::SerdeError(codec_error("a failure carries a message"))),
        }
    } else {
        Err(KvsError::SerdeError(codec_error("an answer is tagged Ok or Err")))
    }
}

/// What the answer to a `get` says: a value or none under the tag `Ok`, or
/// a message under the tag `Err`.
pub open spec fn found_of(json: Json) -> Option<GetResponse> {
    match tagged(json) {
        Some((tag, body)) => if tag@ == "Ok"@ {
            match body {
                Json::Null => Some(GetResponse::Success(None)),
                Json::Text(value) => Some(GetResponse::Success(Some(value))),
                _ => None,
            }
        } else if tag@ == "Err"@ {
            match body {
                Json::Text(message) => Some(GetResponse::Failure(message)),
                _ => None,
            }
        } else {
            None
        },
        None => None,
    }
}

impl Request {
    /// The text of the request on the wire.
    pub fn encode(&self) -> (text: Result<String, KvsError>)
        ensures
            text matches Ok(written) && written@ == request_encoding(*self),
    {
        match self {
            Request::Put { key, value } => {
                let key_text = json_text(key)?;
                let value_text = json_text(value)?;
                let mut out = String::from_str("{\"Set\":{\"key\":");
                out.append(key_text.as_str());
                out.append(",\"value\":");
                out.append(value_text.as_str());
                out.append("}}");
                Ok(out)
            },
            Request::Get { key } => {
                let key_text = json_text(key)?;
                let mut out = String::from_str("{\"Get\":{\"key\":");
                out.append(key_text.as_str());
                out.append("}}");
                Ok(out)
            },
            Request::Remove { key } => {
                let key_text = json_text(key)?;
                let mut out = String::from_str("{\"Remove\":{\"key\":");
                out.append(key_text.as_str());
                out.append("}}");
                Ok(out)
            },
        }
    }

    /// The request that a JSON value stands for. A value that is no
    /// request is refused with `SerdeError`.
    pub fn from_json(json: &Json) -> (request: Result<Request, KvsError>)
        ensures
            match request_of(*json) {
                Some(found) => request == Ok::<Request, KvsError>(found),
                None => request matches Err(e) && e is SerdeError,
            },
    {
        let (tag, body) = tagged_member(json)?;
        if *tag == "Set".to_owned() {
            let key = text_field_of(body, "key")?;
            let value = text_field_of(body, "value")?;
            Ok(Request::Put { key, value })
        } else if *tag == "Get".to_owned() {
            let key = text_field_of(body, "key")?;
            Ok(Request::Get { key })
        } else if *tag == "Remove".to_owned() {
            let key = text_field_of(body, "key")?;
            Ok(Request::Remove { key })
        } else {
            Err(KvsError::SerdeError(codec_error("a request is tagged Set, Get or Remove")))
        }
    }
}

impl SetResponse {
    /// Whether the answer reports `result`: success for success, and for
    /// an error a message of the error.
    pub open spec fn reports(self, result: Result<(), KvsError>) -> bool {
        match result {
            Ok(_) => self is Success,
            Err(e) => self matches SetResponse::Failure(text) && e.is_message(text@),
        }
    }

    /// The answer that reports how a `set` went: success, or the message
    /// of the engine's error.
    pub fn from_result(result: Result<(), KvsError>) -> (response: SetResponse)
        ensures
            response.reports(result),
    {
        match result {
            Ok(_) => SetResponse::Success(()),
            Err(e) => SetResponse::Failure(e.message()),
        }
    }

    /// What the client makes of the answer: a failure becomes a server
    /// error with the server's message.
    pub fn into_result(self) -> (result: Result<(), KvsError>)
        ensures
            match self {
                SetResponse::Success(_) => result is Ok,
                SetResponse::Failure(text) => result == Err::<(), KvsError>(
                    KvsError::ServerErrorMessage(text),
                ),
            },
    {
        match self {
            SetResponse::Success(_) => Ok(()),
            SetResponse::Failure(text) => Err(KvsError::ServerErrorMessage(text)),
        }
    }

    /// The text of the answer on the wire.
    pub open spec fn encoding(self) -> Seq<char> {
        match self {
            SetResponse::Success(_) => success_encoding(),
            SetResponse::Failure(message) => failure_encoding(message@),
        }
    }

    /// The text of the answer on the wire.
    pub fn encode(&self) -> (text: Result<String, KvsError>)
        ensures
            text matches Ok(written) && written@ == self.encoding(),
    {
        match self {
            SetResponse::Success(_) => Ok(String::from_str("{\"Ok\":null}")),
            SetResponse::Failure(message) => encode_failure(message),
        }
    }

    /// The answer that a JSON value stands for. A value that is no answer
    /// to a `set` is refused with `SerdeError`.
    pub fn from_json(json: &Json) -> (response: Result<SetResponse, KvsError>)
        ensures
            match outcome_of(*json) {
                Some(Ok(_)) => response matches Ok(r) && r is Success,
                Some(Err(message)) => response == Ok::<SetResponse, KvsError>(SetResponse::Failure(message)),
                None => response matches Err(e) && e is SerdeError,
            },
    {
        match outcome_from_json(json)? {
            Ok(_) => Ok(SetResponse::Success(())),
            Err(message) => Ok(SetResponse::Failure(message)),
        }
    }
}

impl GetResponse {
    /// Whether the answer reports `result`: the value or its absence, and
    /// for an error a message of the error.
    pub open spec fn reports(self, result: Result<Option<String>, KvsError>) -> bool {
        match result {
            Ok(value) => self == GetResponse::Success(value),
            Err(e) => self matches GetResponse::Failure(text) && e.is_message(text@),
        }
    }

    /// The answer that reports how a `get` went: the value or its absence,
    /// or the message of the engine's error.
    pub fn from_result(result: Result<Option<String>, KvsError>) -> (response: GetResponse)
        ensures
            response.reports(result),
    {
        match result {
            Ok(value) => GetResponse::Success(value),
            Err(e) => GetResponse::Failure(e.message()),
        }
    }

    /// What the client makes of the answer: a failure becomes a server
    /// error with the server's message.
    pub fn into_result(self) -> (result: Result<Option<String>, KvsError>)
        ensures
            match self {
                GetResponse::Success(value) => result == Ok::<Option<String>, KvsError>(value),
                GetResponse::Failure(text) => result == Err::<Option<String>, KvsError>(
                    KvsError::ServerErrorMessage(text),
                ),
            },
    {
        match self {
            GetResponse::Success(value) => Ok(value),
            GetResponse::Failure(text) => Err(KvsError::ServerErrorMessage(text)),
        }
    }

    /// The text of the answer on the wire.
    pub open spec fn encoding(self) -> Seq<char> {
        match self {
            GetResponse::Success(None) => success_encoding(),
            GetResponse::Success(Some(value)) => value_encoding(value@),
            GetResponse::Failure(message) => failure_encoding(message@),
        }
    }

    /// The text of the answer on the wire.
    pub fn encode(&self) -> (text: Result<String, KvsError>)
        ensures
            text matches Ok(written) && written@ == self.encoding(),
    {
        match self {
            GetResponse::Success(None) => Ok(String::from_str("{\"Ok\":null}")),
            GetResponse::Success(Some(value)) => {
                let quoted = json_text(value)?;
                let mut out = String::from_str("{\"Ok\":");
                out.append(quoted.as_str());
                out.append("}");
                Ok(out)
            },
            GetResponse::Failure(message) => encode_failure(message),
        }
    }

    /// The answer that a JSON value stands for. A value that is no answer
    /// to a `get` is refused with `SerdeError`.
    pub fn from_json(json: &Json) -> (response: Result<GetResponse, KvsError>)
        ensures
            match found_of(*json) {
                Some(found) => response == Ok::<GetResponse, KvsError>(found),
                None => response matches Err(e) && e is SerdeError,
            },
    {
        let (tag, body) = tagged_member(json)?;
        if *tag == "Ok".to_owned() {
            match body {
                Json::Null => Ok(GetResponse::Success(None)),
                Json::Text(value) => Ok(GetResponse::Success(Some(value.clone()))),
                _ => Err(KvsError::SerdeError(codec_error("a value is a string"))),
            }
        } else if *tag == "Err".to_owned() {
            match body {
                Json::Text(message) => Ok(GetResponse::Failure(message.clone())),
                _ => Err(KvsError::SerdeError(codec_error("a failure carries a message"))),
            }
        } else {
            Err(KvsError::SerdeError(codec_error("an answer is tagged Ok or Err")))
        }
    }
}

impl RemoveResponse {
    /// Whether the answer reports `result`: success for success, and for
    /// an error a message of the error.
    pub open spec fn reports(self, result: Result<(), KvsError>) -> bool {
        match result {
            Ok(_) => self is Success,
            Err(e) => self matches RemoveResponse::Failure(text) && e.is_message(text@),
        }
    }

    /// The answer that reports how a `remove` went: success, or the
    /// message of the engine's error.
    pub fn from_result(result: Result<(), KvsError>) -> (response: RemoveResponse)
        ensures
            response.reports(result),
    {
        match result {
            Ok(_) => RemoveResponse::Success(()),
            Err(e) => RemoveResponse::Failure(e.message()),
        }
    }

    /// What the client makes of the answer: a failure becomes a server
    /// error with the server's message.
    pub fn into_result(self) -> (result: Result<(), KvsError>)
        ensures
            match self {
                RemoveResponse::Success(_) => result is Ok,
                RemoveResponse::Failure(text) => result == Err::<(), KvsError>(
                    KvsError::ServerErrorMessage(text),
                ),
            },
    {
        match self {
            RemoveResponse::Success(_) => Ok(()),
            RemoveResponse::Failure(text) => Err(KvsError::ServerErrorMessage(text)),
        }
    }

    /// The text of the answer on the wire.
    pub open spec fn encoding(self) -> Seq<char> {
        match self {
            RemoveResponse::Success(_) => success_encoding(),
            RemoveResponse::Failure(message) => failure_encoding(message@),
        }
    }

    /// The text of the answer on the wire.
    pub fn encode(&self) -> (text: Result<String, KvsError>)
        ensures
            text matches Ok(written) && written@ == self.encoding(),
    {
        match self {
            RemoveResponse::Success(_) => Ok(String::from_str("{\"Ok\":null}")),
            RemoveResponse::Failure(message) => encode_failure(message),
        }
    }

    /// The answer that a JSON value stands for. A value that is no answer
    /// to a `remove` is refused with `SerdeError`.
    pub fn from_json(json: &Json) -> (response: Result<RemoveResponse, KvsError>)
        ensures
            match outcome_of(*json) {
                Some(Ok(_)) => response matches Ok(r) && r is Success,
                Some(Err(message)) => response == Ok::<RemoveResponse, KvsError>(RemoveResponse::Failure(message)),
                None => response matches Err(e) && e is SerdeError,
            },
    {
        match outcome_from_json(json)? {
            Ok(_) => Ok(RemoveResponse::Success(())),
            Err(message) => Ok(RemoveResponse::Failure(message)),
        }
    }
}

} // verus!
