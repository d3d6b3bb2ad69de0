//! What the engine on top of the embedded B-tree decides: how the bytes it
//! reads become a value, and when a removal fails.

use crate::errors::KvsError;
use std::string::FromUtf8Error;
use vstd::prelude::*;
use vstd::utf8::{encode_utf8, valid_utf8};

verus! {

/// `String::from_utf8` turns bytes that are UTF-8 into the string that is
/// made of them, and refuses all others.
pub assume_specification[ String::from_utf8 ](bytes: Vec<u8>) -> (text: Result<String, FromUtf8Error>)
    ensures
        match text {
            Ok(s) => valid_utf8(bytes@) && encode_utf8(s@) == bytes@,
            Err(_) => !valid_utf8(bytes@),
        },
;

/// The value that a read of the tree stands for: nothing if the key has no
/// entry, and else the string that the entry's bytes encode. Bytes that are
/// not UTF-8 are refused with `EncodingError`.
pub fn value_of(found: Option<Vec<u8>>) -> (value: Result<Option<String>, KvsError>)
    ensures
        match found {
            None => value matches Ok(None),
            Some(bytes) => if valid_utf8(bytes@) {
                value matches Ok(Some(s)) && encode_utf8(s@) == bytes@
            } else {
                value matches Err(e) && e is EncodingError
            },
        },
{
    match found {
        None => Ok(None),
        Some(bytes) => match String::from_utf8(bytes) {
            Ok(s) => Ok(Some(s)),
            Err(e) => Err(KvsError::EncodingError(e)),
        },
    }
}

/// Whether a removal from the tree took an entry out: a key that had none
/// is refused with `KeyNotFound`.
pub fn removed(previous: Option<Vec<u8>>) -> (outcome: Result<(), KvsError>)
    ensures
        match outcome {
            Ok(_) => previous is Some,
            Err(e) => e is KeyNotFound && previous is None,
        },
{
    match previous {
        Some(_) => Ok(()),
        None => Err(KvsError::KeyNotFound),
    }
}

} // verus!
