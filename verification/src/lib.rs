//! The core of a clipboard watcher: change detection, the in-memory history
//! and the statements that keep the durable history.

pub mod history;
pub mod poller;
pub mod store;
