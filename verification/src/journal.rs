//! Settling an operation once its journal was carried out: which path a
//! step works on, and whether a failed step fails the operation.

use vstd::prelude::*;
use crate::backup::{unit_result, BackupManager, ManagerModel};
use crate::files::SIDECAR_FILE;
use crate::record::{BackupError, ErrorModel};
use crate::text::{child_path, join_child};
use crate::volume::{ActionModel, FsAction, Step, StepModel};

verus! {

/// The first step of a journal that failed when it was carried out, and why.
#[derive(Debug, Clone, PartialEq, Eq)]
pub struct StepFailure {
    /// Index of the step in the journal.
    pub index: usize,
    /// The cause that the file system gave.
    pub cause: String,
}

impl ManagerModel {
    /// The path that a step writes to or removes.
    pub open spec fn step_target(self, action: ActionModel) -> Seq<char> {
        match action {
            ActionModel::CreateBackupDir { backup } => child_path(self.backup_dir, backup),
            ActionModel::CopyIntoBackup { backup, file } => child_path(
                child_path(self.backup_dir, backup),
                file,
            ),
            ActionModel::WriteSidecar { backup, metadata } => child_path(
                child_path(self.backup_dir, backup),
                SIDECAR_FILE@,
            ),
            ActionModel::RemoveBackup { backup } => child_path(self.backup_dir, backup),
            ActionModel::CreateDataDir { dir } => dir,
            ActionModel::RemoveDataFile { dir, file } => child_path(dir, file),
            ActionModel::RestoreFile { backup, file, dir } => child_path(dir, file),
        }
    }

    /// The path that a step reads from, where it copies a file.
    pub open spec fn step_source(self, action: ActionModel) -> Option<Seq<char>> {
        match action {
            ActionModel::CopyIntoBackup { backup, file } => Some(
                child_path(self.store_path, file),
            ),
            ActionModel::RestoreFile { backup, file, dir } => Some(
                child_path(child_path(self.backup_dir, backup), file),
            ),
            _ => None,
        }
    }

    /// How an operation ends once its journal was carried out up to the
    /// first failure: it fails with `Io`, at the path of the failed step,
    /// where that step was required; it succeeds where no step failed or the
    /// failed step was not required.
    pub open spec fn settled(
        self,
        journal: Seq<StepModel>,
        failure: Option<(int, Seq<char>)>,
    ) -> Result<(), ErrorModel> {
        match failure {
            Some((index, cause)) => if 0 <= index < journal.len() && journal[index].required {
                Err(ErrorModel::Io { path: self.step_target(journal[index].action), cause })
            } else {
                Ok(())
            },
            None => Ok(()),
        }
    }
}

/// The model of a reported failure.
pub open spec fn failure_model(failure: Option<StepFailure>) -> Option<(int, Seq<char>)> {
    match failure {
        Some(f) => Some((f.index as int, f.cause@)),
        None => None,
    }
}

impl BackupManager {
    /// The path that a step writes to or removes.
    pub fn step_target(&self, action: &FsAction) -> (path: String)
        ensures
            path@ == self@.step_target(action@),
    {
        let root: &str = self.backup_dir.as_str();
        match action {
            FsAction::CreateBackupDir { backup } => join_child(root, backup.as_str()),
            FsAction::CopyIntoBackup { backup, file } => {
                let dir: String = join_child(root, backup.as_str());
                join_child(dir.as_str(), file.as_str())
            },
            FsAction::WriteSidecar { backup, metadata } => {
                let dir: String = join_child(root, backup.as_str());
                join_child(dir.as_str(), SIDECAR_FILE)
            },
            FsAction::RemoveBackup { backup } => join_child(root, backup.as_str()),
            FsAction::CreateDataDir { dir } => dir.clone(),
            FsAction::RemoveDataFile { dir, file } => join_child(dir.as_str(), file.as_str()),
            FsAction::RestoreFile { backup, file, dir } => join_child(
                dir.as_str(),
                file.as_str(),
            ),
        }
    }

    /// The path that a step reads from, where it copies a file.
    pub fn step_source(&self, action: &FsAction) -> (path: Option<String>)
        ensures
            match path {
                Some(p) => self@.step_source(action@) == Some(p@),
                None => self@.step_source(action@).is_none(),
            },
    {
        match action {
            FsAction::CopyIntoBackup { backup, file } => Some(
                join_child(self.store_path.as_str(), file.as_str()),
            ),
            FsAction::RestoreFile { backup, file, dir } => {
                let from: String = join_child(self.backup_dir.as_str(), backup.as_str());
                Some(join_child(from.as_str(), file.as_str()))
            },
            _ => None,
        }
    }

    /// Says how an operation ends once its journal was carried out up to the
    /// first failure. A failed step that was not required, as those of the
    /// retention pass that follows a backup, is for the log alone.
    pub fn settle(&self, journal: &Vec<Step>, failure: Option<StepFailure>) -> (out: Result<
        (),
        BackupError,
    >)
        ensures
            unit_result(out) == self@.settled(journal.deep_view(), failure_model(failure)),
    {
        match failure {
            Some(f) => {
                if f.index < journal.len() && journal[f.index].required {
                    Err(
                        BackupError::Io {
                            path: self.step_target(&journal[f.index].action),
                            cause: f.cause,
                        },
                    )
                } else {
                    Ok(())
                }
            },
            None => Ok(()),
        }
    }
}

} // verus!
