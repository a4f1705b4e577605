//! A small task store: task records with a line-oriented text codec, an
//! in-memory collection keyed by store-assigned identifiers, the text side of
//! flat-file persistence, and the decisions of a command loop over the store.
pub mod commands;
pub mod error;
pub mod manager;
pub mod storage;
pub mod task;
pub mod text;

pub use error::TaskError;
pub use manager::TaskManager;
pub use storage::{decode_records, encode_records, FileStorage, Storage};
pub use task::{Identified, Priority, Serializable, Status, Task};
