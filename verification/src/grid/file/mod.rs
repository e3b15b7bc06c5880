//! Grid files: a chain of schema versions, each upgraded to the next.

pub mod current;
pub mod v1_5;
pub mod v1_6;

use vstd::prelude::*;

verus! {

/// The version that files are written in.
pub const CURRENT_VERSION: &'static str = "1.6";

/// Why a file could not be read. Each error carries the text that could not
/// be made sense of.
#[derive(Debug, PartialEq, Eq)]
pub enum FileError {
    /// A number is not written as a decimal.
    BadNumber(String),
    /// The key of a row is not written as a whole number.
    BadRowKey(String),
    /// The id of a sheet is not written as a UUID.
    BadSheetId(String),
    /// The kind of an output value is not known.
    UnknownOutputType(String),
    /// A run of equal values is longer than a file can say, holds no row, or
    /// reaches past the last row.
    BadRunLength,
    /// The runs of one attribute overlap or are out of order.
    RunsOutOfOrder,
    /// The size of an output array is not positive, does not fit, or is not
    /// the number of its values.
    BadOutputSize,
    /// Two code runs are stored for one position.
    DuplicateCodeRun,
    /// The version of the file is not one that can be read.
    UnsupportedVersion(String),
}

/// A grid file in a textual envelope, by the version that its tag names.
#[derive(Debug, PartialEq, Eq)]
#[allow(inconsistent_fields)]
pub enum GridFile {
    V1_6 { grid: v1_6::schema::GridSchema },
    V1_5 { grid: v1_5::schema::GridSchema },
}

impl GridFile {
    /// The error of bringing the file to the latest schema.
    pub open spec fn upgrade_error(self) -> Option<FileError> {
        match self {
            GridFile::V1_6 { grid } => None,
            GridFile::V1_5 { grid } => v1_5::file::schema_error(grid),
        }
    }

    /// `latest` is the file in the latest schema.
    pub open spec fn upgraded_to(self, latest: v1_6::schema::GridSchema) -> bool {
        match self {
            GridFile::V1_6 { grid } => latest == grid,
            GridFile::V1_5 { grid } => v1_5::file::schema_upgraded(grid, latest),
        }
    }

    /// Brings the file to the latest schema, one version at a time.
    pub fn into_latest(self) -> (r: Result<v1_6::schema::GridSchema, FileError>)
        ensures
            match self.upgrade_error() {
                Some(e) => r == Err::<v1_6::schema::GridSchema, FileError>(e),
                None => r matches Ok(latest) && self.upgraded_to(latest),
            },
    {
        match self {
            GridFile::V1_6 { grid } => Ok(grid),
            GridFile::V1_5 { grid } => v1_5::file::upgrade(grid),
        }
    }
}

/// A grid file in a binary envelope.
#[derive(Debug, PartialEq, Eq)]
pub enum GridFileBinary {
    V1_6 { grid: v1_6::schema::GridSchema },
}

impl GridFileBinary {
    /// The file in the latest schema.
    pub fn into_latest(self) -> (r: Result<v1_6::schema::GridSchema, FileError>)
        ensures
            self matches GridFileBinary::V1_6 { grid } && r == Ok::<
                v1_6::schema::GridSchema,
                FileError,
            >(grid),
    {
        match self {
            GridFileBinary::V1_6 { grid } => Ok(grid),
        }
    }
}

/// The versions that a file can say it is of.
#[derive(Clone, Copy, Debug, PartialEq, Eq, Hash, Structural)]
pub enum FileVersion {
    V1_5,
    V1_6,
}

/// The version that a tag names.
pub open spec fn spec_version_of(tag: Seq<char>) -> Option<FileVersion> {
    if tag == "1.6"@ {
        Some(FileVersion::V1_6)
    } else if tag == "1.5"@ {
        Some(FileVersion::V1_5)
    } else {
        None
    }
}

/// Looks the version tag of a file up in the list of versions that can be
/// read. Any other tag is refused.
pub fn version_of(tag: &str) -> (r: Result<FileVersion, FileError>)
    ensures
        match spec_version_of(tag@) {
            Some(v) => r == Ok::<FileVersion, FileError>(v),
            None => r matches Err(FileError::UnsupportedVersion(t)) && t@ == tag@,
        },
{
    proof {
        reveal_strlit("1.6");
        reveal_strlit("1.5");
    }
    if crate::formulas::functions::string::exact(tag, "1.6") {
        Ok(FileVersion::V1_6)
    } else if crate::formulas::functions::string::exact(tag, "1.5") {
        Ok(FileVersion::V1_5)
    } else {
        Err(FileError::UnsupportedVersion(tag.to_owned()))
    }
}

} // verus!
