//! The run's error taxonomy.  Only a usage error is recovered (by printing
//! usage); every other variant aborts the run before or during the merge.

use vstd::prelude::*;

verus! {

/// Why a run stops.
#[derive(Clone, Copy, PartialEq, Eq, Structural, Debug)]
pub enum LibmanError {
    /// Malformed arguments: an unrecognized extension, or no output archive.
    Usage,
    /// The platform archiver binary could not be located.
    ToolNotFound,
    /// An archiver invocation failed or produced unreadable output.
    ToolInvocation,
    /// A copy, rename or delete of a transient or backup file failed.
    Filesystem,
}

impl LibmanError {
    /// A short description of the error, for reporting.
    pub fn message(&self) -> (r: &'static str)
        ensures
            r@ == match *self {
                LibmanError::Usage => "usage error"@,
                LibmanError::ToolNotFound => "cannot locate the archiver tool"@,
                LibmanError::ToolInvocation => "archiver invocation failed"@,
                LibmanError::Filesystem => "filesystem operation failed"@,
            },
    {
        match self {
            LibmanError::Usage => "usage error",
            LibmanError::ToolNotFound => "cannot locate the archiver tool",
            LibmanError::ToolInvocation => "archiver invocation failed",
            LibmanError::Filesystem => "filesystem operation failed",
        }
    }
}

} // verus!
