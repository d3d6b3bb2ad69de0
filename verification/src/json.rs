//! JSON values, as far as the log and the wire protocol read them, and the
//! calls that turn bytes into values and strings into JSON text.

use crate::errors::KvsError;
use serde_json::Value;
use vstd::prelude::*;

verus! {

/// `serde_json::Value`, the parser's own form of a JSON value. It is only
/// handed on to be copied into a `Json`.
#[verifier::external_type_specification]
#[verifier::external_body]
pub struct ExValue(Value);

/// A JSON value.
#[derive(Debug)]
pub enum Json {
    Null,
    Bool(bool),
    /// A number: its value if it is an integer that fits in 64 bits with a
    /// sign, and `None` for any other number.
    Number(Option<i64>),
    Text(String),
    Array(Vec<Json>),
    /// An object: its members, each name once.
    Object(Vec<(String, Json)>),
}

/// What stands at the start of a stream of JSON values.
pub enum Prefix {
    /// A value, and the number of bytes up to its end.
    Value(Json, usize),
    /// Nothing but white space.
    End,
    /// The start of a value, which the end of the bytes cuts short.
    Truncated,
    /// Something that is no JSON value.
    Invalid,
}

/// A `Prefix`, with the error that the parser reported.
pub enum Parsed {
    Value(Json, usize),
    End,
    Truncated(serde_json::Error),
    Invalid(serde_json::Error),
}

impl Parsed {
    /// What was found, without the parser's error.
    pub open spec fn prefix(self) -> Prefix {
        match self {
            Parsed::Value(json, end) => Prefix::Value(json, end),
            Parsed::End => Prefix::End,
            Parsed::Truncated(_) => Prefix::Truncated,
            Parsed::Invalid(_) => Prefix::Invalid,
        }
    }
}

/// What `serde_json` finds at the start of the bytes, read as a stream of
/// values.
pub uninterp spec fn json_prefix(bytes: Seq<u8>) -> Prefix;

/// The value that `serde_json` reads the bytes as, if they are one JSON
/// value and white space.
pub uninterp spec fn json_document(bytes: Seq<u8>) -> Option<Json>;

/// The JSON text that `serde_json` writes for a string: the string in
/// double quotes, with what has to be escaped escaped.
pub uninterp spec fn json_string(text: Seq<char>) -> Seq<char>;

/// Copies a `serde_json::Value` into a `Json`, variant by variant. A number
/// is taken by `Number::as_i64`, the members of an object in the order in
/// which `Map::iter` gives them.
#[verifier::external_body]
fn json_of_value(value: &Value) -> (json: Json) {
    match value {
        Value::Null => Json::Null,
        Value::Bool(b) => Json::Bool(*b),
        Value::Number(n) => Json::Number(n.as_i64()),
        Value::String(s) => Json::Text(s.clone()),
        Value::Array(items) => Json::Array(items.iter().map(json_of_value).collect()),
        Value::Object(members) => Json::Object(
            members.iter().map(|(name, member)| (name.clone(), json_of_value(member))).collect(),
        ),
    }
}

/// `serde_json::Deserializer::from_slice(bytes).into_iter::<Value>()`, asked
/// for its first item and then for `byte_offset`: the first value of the
/// stream and where it ends, or that there is none, or the parser's error,
/// told apart by `Error::is_eof`.
#[verifier::external_body]
fn parse_json_prefix(bytes: &[u8]) -> (parsed: Parsed)
    ensures
        parsed.prefix() == json_prefix(bytes@),
{
    let mut stream = serde_json::Deserializer::from_slice(bytes).into_iter::<Value>();
    match stream.next() {
        None => Parsed::End,
        Some(Ok(value)) => Parsed::Value(json_of_value(&value), stream.byte_offset()),
        Some(Err(e)) => if e.is_eof() {
            Parsed::Truncated(e)
        } else {
            Parsed::Invalid(e)
        },
    }
}

/// `serde_json::from_slice::<Value>`: the value that the bytes are, or the
/// parser's error if they are not one JSON value and white space.
#[verifier::external_body]
pub(crate) fn parse_json_document(bytes: &[u8]) -> (parsed: Result<Json, serde_json::Error>)
    ensures
        parsed.ok() == json_document(bytes@),
{
    match serde_json::from_slice::<Value>(bytes) {
        Ok(value) => Ok(json_of_value(&value)),
        Err(e) => Err(e),
    }
}

/// `serde_json::to_string` of a string: the JSON text of the string. The
/// call does not fail: the encoder fails only where its writer does or
/// where a value refuses to be written, and here it writes a string into a
/// vector of bytes.
#[verifier::external_body]
pub(crate) fn json_text_of(text: &str) -> (json: Result<String, serde_json::Error>)
    ensures
        json is Ok,
        json matches Ok(written) ==> written@ == json_string(text@),
{
    serde_json::to_string(text)
}

/// `serde::de::Error::custom` of `serde_json::Error`: an error that carries
/// the message. Nothing is claimed of it.
#[verifier::external_body]
pub(crate) fn codec_error(message: &str) -> (e: serde_json::Error) {
    <serde_json::Error as serde::de::Error>::custom(message)
}

/// What stands at the start of the bytes that a stream has brought so far.
#[derive(Debug)]
pub enum Frame {
    /// A value, and the number of bytes that it takes, white space before
    /// it included.
    Value { json: Json, consumed: usize },
    /// Nothing but white space.
    Nothing,
    /// The start of a value, whose rest has yet to come. A stream that ends
    /// here fails with the error.
    Partial(KvsError),
    /// Something that is no JSON value: the stream fails with the error.
    Broken(KvsError),
}

impl Frame {
    /// Whether the frame tells what the parser finds at the start of
    /// `len` bytes.
    pub open spec fn tells(self, found: Prefix, len: nat) -> bool {
        match found {
            Prefix::Value(json, n) => if 0 < n <= len {
                self == (Frame::Value { json, consumed: n })
            } else {
                self matches Frame::Broken(e) && e is SerdeError
            },
            Prefix::End => self is Nothing,
            Prefix::Truncated => self matches Frame::Partial(e) && e is SerdeError,
            Prefix::Invalid => self matches Frame::Broken(e) && e is SerdeError,
        }
    }
}

/// Reads the first JSON value of a stream, of which `bytes` have come so
/// far.
pub fn next_frame(bytes: &[u8]) -> (frame: Frame)
    ensures
        frame.tells(json_prefix(bytes@), bytes@.len()),
{
    match parse_json_prefix(bytes) {
        Parsed::Value(json, consumed) => {
            if 0 < consumed && consumed <= bytes.len() {
                Frame::Value { json, consumed }
            } else {
                Frame::Broken(KvsError::SerdeError(codec_error("a value ends within the bytes")))
            }
        },
        Parsed::End => Frame::Nothing,
        Parsed::Truncated(e) => Frame::Partial(KvsError::SerdeError(e)),
        Parsed::Invalid(e) => Frame::Broken(KvsError::SerdeError(e)),
    }
}

/// The member called `name` among the first `n` members, if there is one;
/// of several, the first.
pub open spec fn member_among(members: Seq<(String, Json)>, name: Seq<char>, n: int) -> Option<Json>
    decreases n,
{
    if n <= 0 {
        None
    } else {
        match member_among(members, name, n - 1) {
            Some(found) => Some(found),
            None => if members[n - 1].0@ == name {
                Some(members[n - 1].1)
            } else {
                None
            },
        }
    }
}

/// The first member of a name is the one that is found.
proof fn lemma_member_found(members: Seq<(String, Json)>, name: Seq<char>, i: int, n: int)
    requires
        0 <= i < n <= members.len(),
        member_among(members, name, i) is None,
        members[i].0@ == name,
    ensures
        member_among(members, name, n) == Some(members[i].1),
    decreases n,
{
    if n > i + 1 {
        lemma_member_found(members, name, i, n - 1);
    }
}

impl Json {
    /// The member called `name`, if this is an object that has one.
    pub open spec fn member(self, name: Seq<char>) -> Option<Json> {
        match self {
            Json::Object(members) => member_among(members@, name, members@.len() as int),
            _ => None,
        }
    }

    /// The member called `name`, if this is an object that has one.
    pub fn get(&self, name: &str) -> (found: Option<&Json>)
        ensures
            match found {
                Some(json) => self.member(name@) == Some(*json),
                None => self.member(name@) is None,
            },
    {
        match self {
            Json::Object(members) => {
                let wanted = name.to_owned();
                let mut i: usize = 0;
                while i < members.len()
                    invariant
                        0 <= i <= members.len(),
                        wanted@ == name@,
                        self.member(name@) == member_among(members@, name@, members@.len() as int),
                        member_among(members@, name@, i as int) is None,
                    decreases members.len() - i,
                {
                    if members[i].0 == wanted {
                        proof {
                            lemma_member_found(members@, name@, i as int, members@.len() as int);
                        }
                        return Some(&members[i].1);
                    }
                    i += 1;
                }
                None
            },
            _ => None,
        }
    }
}

} // verus!
