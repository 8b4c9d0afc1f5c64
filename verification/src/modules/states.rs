//! The states that a task can ask of a file, a package or a service.

use vstd::prelude::*;
use crate::text::{lowercase_of, same_text, to_lowercase};

verus! {

/// A text that names no state.
#[derive(Debug, Clone, Copy, PartialEq, Eq, Structural)]
pub enum StateError {
    InvalidFileState,
    InvalidPackageState,
    InvalidServiceState,
}

/// The states of a path.
#[derive(Debug, Clone, Copy, PartialEq, Eq, Structural)]
pub enum FileState {
    File,
    Directory,
    Link,
    Absent,
    Touch,
}

/// The state of a path that a text names, whatever the case of its letters.
pub open spec fn file_state_of(s: Seq<char>) -> Option<FileState> {
    let l = lowercase_of(s);
    if l == "file"@ {
        Some(FileState::File)
    } else if l == "directory"@ || l == "dir"@ {
        Some(FileState::Directory)
    } else if l == "link"@ {
        Some(FileState::Link)
    } else if l == "absent"@ {
        Some(FileState::Absent)
    } else if l == "touch"@ {
        Some(FileState::Touch)
    } else {
        None
    }
}

impl FileState {
    /// The state that a text names.
    pub fn from_str(s: &str) -> (r: Result<FileState, StateError>)
        ensures
            match r {
                Ok(state) => file_state_of(s@) == Some(state),
                Err(e) => file_state_of(s@) is None && e == StateError::InvalidFileState,
            },
    {
        let lower = to_lowercase(s);
        let l = lower.as_str();
        if same_text(l, "file") {
            Ok(FileState::File)
        } else if same_text(l, "directory") || same_text(l, "dir") {
            Ok(FileState::Directory)
        } else if same_text(l, "link") {
            Ok(FileState::Link)
        } else if same_text(l, "absent") {
            Ok(FileState::Absent)
        } else if same_text(l, "touch") {
            Ok(FileState::Touch)
        } else {
            Err(StateError::InvalidFileState)
        }
    }
}

/// The states of a package.
#[derive(Debug, Clone, Copy, PartialEq, Eq, Structural)]
pub enum PackageState {
    Present,
    Absent,
    Latest,
}

/// The state of a package that a text names, whatever the case of its
/// letters.
pub open spec fn package_state_of(s: Seq<char>) -> Option<PackageState> {
    let l = lowercase_of(s);
    if l == "present"@ || l == "installed"@ {
        Some(PackageState::Present)
    } else if l == "absent"@ || l == "removed"@ {
        Some(PackageState::Absent)
    } else if l == "latest"@ {
        Some(PackageState::Latest)
    } else {
        None
    }
}

impl PackageState {
    /// The state that a text names.
    pub fn from_str(s: &str) -> (r: Result<PackageState, StateError>)
        ensures
            match r {
                Ok(state) => package_state_of(s@) == Some(state),
                Err(e) => package_state_of(s@) is None && e == StateError::InvalidPackageState,
            },
    {
        let lower = to_lowercase(s);
        let l = lower.as_str();
        if same_text(l, "present") || same_text(l, "installed") {
            Ok(PackageState::Present)
        } else if same_text(l, "absent") || same_text(l, "removed") {
            Ok(PackageState::Absent)
        } else if same_text(l, "latest") {
            Ok(PackageState::Latest)
        } else {
            Err(StateError::InvalidPackageState)
        }
    }
}

/// The states of a service.
#[derive(Debug, Clone, Copy, PartialEq, Eq, Structural)]
pub enum ServiceState {
    Started,
    Stopped,
    Restarted,
    Reloaded,
}

/// The state of a service that a text names, whatever the case of its
/// letters.
pub open spec fn service_state_of(s: Seq<char>) -> Option<ServiceState> {
    let l = lowercase_of(s);
    if l == "started"@ {
        Some(ServiceState::Started)
    } else if l == "stopped"@ {
        Some(ServiceState::Stopped)
    } else if l == "restarted"@ {
        Some(ServiceState::Restarted)
    } else if l == "reloaded"@ {
        Some(ServiceState::Reloaded)
    } else {
        None
    }
}

/// The word for a state that a service has reached.
pub open spec fn past_tense(state: ServiceState) -> Seq<char> {
    match state {
        ServiceState::Started => "started"@,
        ServiceState::Stopped => "stopped"@,
        ServiceState::Restarted => "restarted"@,
        ServiceState::Reloaded => "reloaded"@,
    }
}

impl ServiceState {
    /// The state that a text names.
    pub fn from_str(s: &str) -> (r: Result<ServiceState, StateError>)
        ensures
            match r {
                Ok(state) => service_state_of(s@) == Some(state),
                Err(e) => service_state_of(s@) is None && e == StateError::InvalidServiceState,
            },
    {
        let lower = to_lowercase(s);
        let l = lower.as_str();
        if same_text(l, "started") {
            Ok(ServiceState::Started)
        } else if same_text(l, "stopped") {
            Ok(ServiceState::Stopped)
        } else if same_text(l, "restarted") {
            Ok(ServiceState::Restarted)
        } else if same_text(l, "reloaded") {
            Ok(ServiceState::Reloaded)
        } else {
            Err(StateError::InvalidServiceState)
        }
    }
}

/// The word for a state that a service has reached.
pub fn get_state_past_tense(state: &ServiceState) -> (r: &'static str)
    ensures
        r@ == past_tense(*state),
{
    match state {
        ServiceState::Started => "started",
        ServiceState::Stopped => "stopped",
        ServiceState::Restarted => "restarted",
        ServiceState::Reloaded => "reloaded",
    }
}

} // verus!
