//! A file-backed task tracker: an ordered collection of tasks with
//! create/mutate/sort operations, a JSON codec for durable storage, and a
//! backup-rotation engine that makes every save reversible.

pub mod codec;
pub mod color;
pub mod date;
pub mod persist;
pub mod sort;
pub mod storage;
pub mod display;
pub mod task;
