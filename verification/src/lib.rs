//! Backup and restore lifecycle management for the data store of a
//! long-running pool service, together with the decisions of its health
//! check.
//!
//! The library decides; it performs no I/O. A caller scans the live data
//! directory and the backups root into a [`volume::Volume`], asks the
//! [`backup::BackupManager`] for an operation, carries out the steps that the
//! operation wrote into the volume's journal, and lets
//! [`backup::BackupManager::settle`] say how the operation ended.
//!
//! Every operation is specified by a function on the model of the volume
//! (`after_backup`, `after_restore`, `after_trim`, ...). What holds of these
//! functions on every volume is proved in [`laws`], [`retention`],
//! [`validity`] and [`replay`].

// Text and time.
pub mod text;
pub mod scan;
pub mod time;

// The image of the directories.
pub mod files;
pub mod record;
pub mod volume;

// The operations.
pub mod catalog;
pub mod backup;
pub mod snapshot;
pub mod restore;
pub mod journal;
pub mod scheduler;

// What is proved of them.
pub mod laws;
pub mod retention;
pub mod validity;
pub mod replay;

// The health check and the administrative answers.
pub mod health;
pub mod probe;
pub mod api;
