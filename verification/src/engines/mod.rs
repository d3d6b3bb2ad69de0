//! The storage engines, what the server asks of an engine, and the marker
//! that says which engine a data directory belongs to.

pub mod sled_wrapper;
pub mod toy_bitcask;

use crate::cli_common::EngineType;
use crate::errors::KvsError;
use vstd::prelude::*;

verus! {

/// What the server asks of a storage engine. A handle is cloned for each
/// connection, and all clones share one store.
pub trait KvsEngine: Clone + Send + 'static {
    /// Gives `key` the `value`.
    fn set(&self, key: String, value: String) -> Result<(), KvsError>;

    /// The value of `key`, if it has one.
    fn get(&self, key: String) -> Result<Option<String>, KvsError>;

    /// Removes `key`, which has to be there.
    fn remove(&self, key: String) -> Result<(), KvsError>;
}

/// What the engine marker of a data directory says.
pub open spec fn marked_engine(marker: Option<&str>) -> Result<Option<EngineType>, ()> {
    match marker {
        None => Ok(None),
        Some(content) => match EngineType::spec_parse(content@) {
            Some(engine) => Ok(Some(engine)),
            None => Err(()),
        },
    }
}

/// The engine that a data directory belongs to, given the content of its
/// engine marker, or `None` for a directory without a marker.
///
/// The marker holds `kvs` or `sled` and nothing else; any other content is
/// refused with `UnknownEngineType`.
pub fn engine_type_of(marker: Option<&str>) -> (engine: Result<Option<EngineType>, KvsError>)
    ensures
        match engine {
            Ok(found) => marked_engine(marker) == Ok::<Option<EngineType>, ()>(found),
            Err(e) => e is UnknownEngineType && marked_engine(marker) is Err,
        },
{
    match marker {
        None => Ok(None),
        Some(content) => match EngineType::parse(content) {
            Some(engine) => Ok(Some(engine)),
            None => Err(KvsError::UnknownEngineType),
        },
    }
}

/// Whether a server may run `requested` on a data directory that was
/// `previous`'s, if it was anyone's: the two have to be the same engine, or
/// the request is refused with `IncompatibleEngineType`.
pub fn check_engine_type(previous: Option<EngineType>, requested: EngineType) -> (checked: Result<
    (),
    KvsError,
>)
    ensures
        match checked {
            Ok(_) => previous is None || previous == Some(requested),
            Err(e) => e is IncompatibleEngineType && previous is Some && previous != Some(requested),
        },
{
    match previous {
        Some(engine) => {
            if engine == requested {
                Ok(())
            } else {
                Err(KvsError::IncompatibleEngineType)
            }
        },
        None => Ok(()),
    }
}

} // verus!
