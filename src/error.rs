use vstd::prelude::*;

verus! {

/// Errors of the snapshot bookkeeping: parsing listings, resolving paths,
/// deleting subvolumes and converting policies.
#[derive(Debug, Clone, PartialEq)]
pub enum BackupError {
    /// A command run through the executor failed.
    Command(String),
    /// A line of the mount listing lacks a field; the text names the field.
    MountParsing(String),
    /// The subvolume listing has an unexpected shape.
    SubvolumeParsing(String),
    /// A column that must hold a UUID does not; the text is the column.
    Uuid(String),
    /// The output of a point lookup of a subvolume has an unexpected shape.
    SubvolumeInfoParsing(String),
    /// A snapshot could not be created.
    SnapshotSubvolume(String),
    /// A subvolume may not be deleted.
    DeleteSubvolume(String),
    /// A configured duration cannot be represented.
    DurationConversionError,
    /// No mount entry matches a device and internal path.
    PathConversionError,
    /// A subvolume or snapshot that was looked for is not there.
    NotFound(String),
}

impl BackupError {
    /// A copy of this error.
    pub fn copy(&self) -> (r: BackupError)
        ensures
            r == *self,
    {
        match self {
            BackupError::Command(s) => BackupError::Command(s.clone()),
            BackupError::MountParsing(s) => BackupError::MountParsing(s.clone()),
            BackupError::SubvolumeParsing(s) => BackupError::SubvolumeParsing(s.clone()),
            BackupError::Uuid(s) => BackupError::Uuid(s.clone()),
            BackupError::SubvolumeInfoParsing(s) => BackupError::SubvolumeInfoParsing(s.clone()),
            BackupError::SnapshotSubvolume(s) => BackupError::SnapshotSubvolume(s.clone()),
            BackupError::DeleteSubvolume(s) => BackupError::DeleteSubvolume(s.clone()),
            BackupError::DurationConversionError => BackupError::DurationConversionError,
            BackupError::PathConversionError => BackupError::PathConversionError,
            BackupError::NotFound(s) => BackupError::NotFound(s.clone()),
        }
    }
}

/// Errors of the configuration, the naming convention and the commands.
#[derive(Debug, Clone, PartialEq)]
pub enum CustomError {
    ExtractionError(String),
    ConfigurationError(String),
    CommandError(String),
    DurationConversionError,
    SnapshotError(String),
}

impl CustomError {
    /// The text that describes this error.
    pub fn message(&self) -> (r: String)
        ensures
            self matches CustomError::ExtractionError(s) ==> r@ == s@,
            self matches CustomError::ConfigurationError(s) ==> r@ == s@,
            self matches CustomError::CommandError(s) ==> r@ == s@,
            self matches CustomError::SnapshotError(s) ==> r@ == s@,
            self is DurationConversionError ==> r@ == "Duration Conversion Error: overflow"@,
    {
        match self {
            CustomError::ExtractionError(s) => s.clone(),
            CustomError::ConfigurationError(s) => s.clone(),
            CustomError::CommandError(s) => s.clone(),
            CustomError::SnapshotError(s) => s.clone(),
            CustomError::DurationConversionError => {
                String::from_str("Duration Conversion Error: overflow")
            },
        }
    }
}

} // verus!
