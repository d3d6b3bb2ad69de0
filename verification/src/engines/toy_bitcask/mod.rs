//! The log-structured engine: an append-only log of commands in numbered
//! files, and an in-memory directory from each key to its latest record.

pub mod accounting;
pub mod command;
pub mod key_dir;
pub mod kv;
pub mod log_set;
pub mod model;
pub mod stable_log;

pub use command::{Command, CommandMeta, Record, Refusal};
pub use key_dir::KeyDir;
pub use kv::{
    Compaction, KvStore, Relocation, ReplayEnd, Replayed, StoreView, COMPACTION_THRESHOLD,
};
pub use stable_log::{ReadPlan, StableLog};
pub use log_set::{list_log_file_in, log_file_of, log_id_of};
