//! The pipeline's failure taxonomy.  Every stage aborts on its first
//! failure and hands the error up unchanged.

use vstd::prelude::*;

verus! {

/// What went wrong in a pipeline run.  Each variant carries the context
/// a caller needs to report the failure: a location, a message, or the
/// name of a missing column.
#[derive(Debug, PartialEq, Eq)]
pub enum PipelineError {
    /// The input location does not reference an existing file.
    InputNotFound(String),
    /// The input exists but could not be opened or read.
    OpenFailure(String),
    /// The content is not a header row plus aligned data rows.
    ParseFailure(String),
    /// A required column is absent from the table; holds its name.
    MissingColumn(String),
    /// The output destination could not be created.
    CreateFailure(String),
    /// Writing the serialized output failed.
    WriteFailure(String),
}

} // verus!
