//! Backup records, the state of a metadata sidecar, and the errors of the
//! backup operations.

use vstd::prelude::*;
use crate::text::concat_str;
use crate::time::Timestamp;

verus! {

/// Version written into the records that this library creates.
pub const SOFTWARE_VERSION: &'static str = "0.1.0";

/// Version of a record that was derived from a directory without a sidecar.
pub const UNKNOWN_VERSION: &'static str = "unknown";

/// The record of one point-in-time copy, as its sidecar stores it.
#[derive(Debug, Clone, PartialEq, Eq)]
pub struct BackupMetadata {
    pub backup_name: String,
    pub created_at: Timestamp,
    pub store_path: String,
    pub backup_path: String,
    pub size_bytes: u64,
    pub version: String,
}

/// What a [`BackupMetadata`] stands for.
pub struct MetadataModel {
    pub backup_name: Seq<char>,
    pub created_at: Timestamp,
    pub store_path: Seq<char>,
    pub backup_path: Seq<char>,
    pub size_bytes: u64,
    pub version: Seq<char>,
}

impl View for BackupMetadata {
    type V = MetadataModel;

    open spec fn view(&self) -> MetadataModel {
        MetadataModel {
            backup_name: self.backup_name@,
            created_at: self.created_at,
            store_path: self.store_path@,
            backup_path: self.backup_path@,
            size_bytes: self.size_bytes,
            version: self.version@,
        }
    }
}

impl DeepView for BackupMetadata {
    type V = MetadataModel;

    open spec fn deep_view(&self) -> MetadataModel {
        self@
    }
}

impl BackupMetadata {
    /// A second value of the same record.
    pub fn duplicate(&self) -> (m: BackupMetadata)
        ensures
            m@ == self@,
    {
        BackupMetadata {
            backup_name: self.backup_name.clone(),
            created_at: self.created_at,
            store_path: self.store_path.clone(),
            backup_path: self.backup_path.clone(),
            size_bytes: self.size_bytes,
            version: self.version.clone(),
        }
    }
}

/// A backup that was just taken: where it lies, and its record.
#[derive(Debug, Clone, PartialEq, Eq)]
pub struct BackupInfo {
    pub path: String,
    pub metadata: BackupMetadata,
}

/// What a scan found of a directory's metadata sidecar.
#[derive(Debug, Clone, PartialEq, Eq)]
pub enum Sidecar {
    /// The directory holds no sidecar.
    Missing,
    /// A sidecar is there, and could not be read as a record.
    Unreadable,
    /// The record that the sidecar holds.
    Present(BackupMetadata),
}

/// What a [`Sidecar`] stands for.
pub enum SidecarModel {
    Missing,
    Unreadable,
    Present(MetadataModel),
}

impl View for Sidecar {
    type V = SidecarModel;

    open spec fn view(&self) -> SidecarModel {
        match self {
            Sidecar::Missing => SidecarModel::Missing,
            Sidecar::Unreadable => SidecarModel::Unreadable,
            Sidecar::Present(m) => SidecarModel::Present(m@),
        }
    }
}

/// Figures over the catalog.
#[derive(Debug, Clone, PartialEq, Eq)]
pub struct BackupStats {
    pub count: usize,
    pub total_size_bytes: u128,
    pub oldest: Option<Timestamp>,
    pub newest: Option<Timestamp>,
}

/// Why a backup operation failed.
#[derive(Debug, Clone, PartialEq, Eq)]
pub enum BackupError {
    /// No backup directory of that name, or no data directory at that path.
    NotFound { subject: String },
    /// A step on the file system failed at `path`.
    Io { path: String, cause: String },
    /// The backup lacks the completeness sentinel.
    InvalidBackup { name: String },
    /// The backup's sidecar does not hold its record.
    Serialization { name: String },
}

/// What a [`BackupError`] stands for.
pub enum ErrorModel {
    NotFound { subject: Seq<char> },
    Io { path: Seq<char>, cause: Seq<char> },
    InvalidBackup { name: Seq<char> },
    Serialization { name: Seq<char> },
}

impl View for BackupError {
    type V = ErrorModel;

    open spec fn view(&self) -> ErrorModel {
        match self {
            BackupError::NotFound { subject } => ErrorModel::NotFound { subject: subject@ },
            BackupError::Io { path, cause } => ErrorModel::Io { path: path@, cause: cause@ },
            BackupError::InvalidBackup { name } => ErrorModel::InvalidBackup { name: name@ },
            BackupError::Serialization { name } => ErrorModel::Serialization { name: name@ },
        }
    }
}

pub const NOT_FOUND_TEXT: &'static str = "Not found: ";

pub const IO_TEXT: &'static str = "File system step failed at ";

pub const CAUSE_TEXT: &'static str = ": ";

pub const INVALID_TEXT: &'static str = "Invalid backup, missing CURRENT file: ";

pub const SERIALIZATION_TEXT: &'static str = "Unreadable metadata of backup: ";

/// The text that describes an error: what failed, at which name or path,
/// and the cause where the file system gave one.
pub open spec fn message_of(e: ErrorModel) -> Seq<char> {
    match e {
        ErrorModel::NotFound { subject } => NOT_FOUND_TEXT@ + subject,
        ErrorModel::Io { path, cause } => IO_TEXT@ + path + CAUSE_TEXT@ + cause,
        ErrorModel::InvalidBackup { name } => INVALID_TEXT@ + name,
        ErrorModel::Serialization { name } => SERIALIZATION_TEXT@ + name,
    }
}

impl BackupError {
    /// The text that describes the error.
    pub fn message(&self) -> (text: String)
        ensures
            text@ == message_of(self@),
    {
        match self {
            BackupError::NotFound { subject } => concat_str(NOT_FOUND_TEXT, subject.as_str()),
            BackupError::Io { path, cause } => {
                let at: String = concat_str(IO_TEXT, path.as_str());
                let with_sep: String = concat_str(at.as_str(), CAUSE_TEXT);
                concat_str(with_sep.as_str(), cause.as_str())
            },
            BackupError::InvalidBackup { name } => concat_str(INVALID_TEXT, name.as_str()),
            BackupError::Serialization { name } => concat_str(SERIALIZATION_TEXT, name.as_str()),
        }
    }
}

} // verus!
