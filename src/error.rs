use vstd::prelude::*;

verus! {

/// Why a launch stops. Every one of them ends the launch.
#[derive(Clone, Copy, Debug, PartialEq, Eq, Structural)]
pub enum LaunchError {
    /// The embedded archive cannot be opened.
    ArchiveCorrupt,
    /// One entry of the archive cannot be decoded.
    EntryReadError,
    /// A directory or file could not be created, written, or given its mode.
    FilesystemError,
    /// The launcher's own directory cannot be determined.
    EnvironmentError,
    /// The interpreter or the backend script is missing after extraction.
    BackendNotFound,
    /// A child process could not be started.
    ProcessSpawnError,
}

/// The text that describes each error.
pub open spec fn message_of(e: LaunchError) -> Seq<char> {
    match e {
        LaunchError::ArchiveCorrupt => "embedded archive cannot be opened"@,
        LaunchError::EntryReadError => "archive entry cannot be read"@,
        LaunchError::FilesystemError => "filesystem operation failed"@,
        LaunchError::EnvironmentError => "cannot determine the launcher directory"@,
        LaunchError::BackendNotFound => "interpreter or backend script not found"@,
        LaunchError::ProcessSpawnError => "child process could not be started"@,
    }
}

impl LaunchError {
    /// A short human-readable description.
    pub fn message(&self) -> (r: String)
        ensures
            r@ == message_of(*self),
    {
        let s: &str = match self {
            LaunchError::ArchiveCorrupt => "embedded archive cannot be opened",
            LaunchError::EntryReadError => "archive entry cannot be read",
            LaunchError::FilesystemError => "filesystem operation failed",
            LaunchError::EnvironmentError => "cannot determine the launcher directory",
            LaunchError::BackendNotFound => "interpreter or backend script not found",
            LaunchError::ProcessSpawnError => "child process could not be started",
        };
        s.to_string()
    }
}

} // verus!
