//! Core logic of a content-addressed, deduplicating backup server.
//!
//! - `blob`, `index`, `chunk_store`: blob framing, fixed and dynamic chunk
//!   indices with their checksums, and chunk garbage collection.
//! - `session`: the backup session protocol state machine.
//! - `verify`, `chunk_reader`: decisions of the verification engine and
//!   the chunk cache of remote readers.
//! - `task`: task ids, task states and the task list files.
//! - `catalog`: the catalog file format.
//! - `rrd`: slot arithmetic of round-robin archives.
//! - `calendar`, `time_span`, `media_pool`: schedule grammars and tape
//!   media pool policies.
//! - `json`: canonical JSON.
//! - `bytes`, `text`: helpers on bytes and strings.

pub mod blob;
pub mod bytes;
pub mod calendar;
pub mod catalog;
pub mod chunk_reader;
pub mod chunk_store;
pub mod index;
pub mod json;
pub mod media_pool;
pub mod rrd;
pub mod session;
pub mod task;
pub mod text;
pub mod time_span;
pub mod verify;
