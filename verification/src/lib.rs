//! A log-structured key-value store: the storage engine, the wire protocol
//! and the rules around them, written as a verified core that performs no
//! I/O of its own.

pub mod cli_common;
pub mod common;
pub mod decimal;
pub mod engines;
pub mod errors;
pub mod json;
pub mod kv;
pub mod server;
pub mod thread_pool;

pub use cli_common::{Command, EngineType, KvsCliOption, Report};
pub use common::{GetResponse, RemoveResponse, Request, SetResponse};
pub use engines::toy_bitcask::KvStore;
pub use engines::{check_engine_type, engine_type_of, KvsEngine};
pub use errors::KvsError;
pub use server::{KvsServer, Response, Step};
pub use thread_pool::ThreadPool;
