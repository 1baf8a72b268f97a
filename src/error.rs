use vstd::prelude::*;

verus! {

/// Every failure that an action of the command line can surface.
#[derive(Debug, Clone, Copy, PartialEq, Eq, Structural)]
pub enum CliError {
    /// No version of the tool is recorded as current: an update is needed.
    NoToolInstalled,
    /// The persisted manifest exists but cannot be parsed.
    ManifestUnreadable,
    /// The configuration file exists but cannot be parsed.
    ConfigUnreadable,
    /// The remote source could not be reached, or a download came back short.
    UpdateCheckFailed,
    /// The archive could not be written to the install root.
    UpdateWriteFailed,
    /// The external tool exited unsuccessfully.
    ExternalToolFailed { code: Option<i32>, signal: Option<i32> },
}

} // verus!
