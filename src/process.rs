//! Per-process query results, with their field-level and record-level errors

use vstd::prelude::*;

verus! {

/// Identifier of an operating system process
pub type Pid = i32;

/// Error which can occur while fetching a specific piece of process
/// information, without that invalidating the entire ProcessInfo struct.
#[non_exhaustive]
#[derive(Copy, Clone, Debug, Eq, PartialEq, Structural)]
pub enum ProcessInfoFieldError {
    /// Not enough permissions to query this ProcessInfo field.
    AccessDenied,
}

/// Error which invalidates the entire ProcessInfo query.
#[non_exhaustive]
#[derive(Copy, Clone, Debug, Eq, PartialEq, Structural)]
pub enum ProcessInfoError {
    /// Not enough permissions to query a Process struct.
    AccessDenied,
    /// The process exited during the query and doesn't exist anymore.
    NoSuchProcess,
    /// Same as above, but the parent didn't reclaim its exit status yet.
    ZombieProcess,
}

/// Creation time of a process, as a duration since the Unix epoch
#[derive(Copy, Clone, Debug, Eq, PartialEq, Structural)]
pub struct CreateTime {
    /// Whole seconds since the Unix epoch
    pub secs: u64,
    /// Nanoseconds on top of `secs`
    pub nanos: u32,
}

/// Result of a detailed process info query.
///
/// Each field is queried on its own, and may independently be unavailable.
#[derive(Debug)]
pub struct ProcessInfo {
    /// PID of the parent process, or `None` for a process at the top of the
    /// process hierarchy
    pub parent_pid: Result<Option<Pid>, ProcessInfoFieldError>,
    /// Name of this process
    pub name: Result<String, ProcessInfoFieldError>,
    /// Path to this process' executable (empty when there is none)
    pub exe: Result<String, ProcessInfoFieldError>,
    /// Command line with which the process was invoked, one argument each
    pub command: Result<Vec<String>, ProcessInfoFieldError>,
    /// Time at which the process was created
    pub create_time: Result<CreateTime, ProcessInfoFieldError>,
}

/// What was learned about one identified process: its record, or the reason
/// why the whole record is unavailable.
pub type RecordOutcome = Result<ProcessInfo, ProcessInfoError>;

/// The parent of a process, when its record names one.
pub open spec fn known_parent(outcome: RecordOutcome) -> Option<Pid> {
    match outcome {
        Ok(info) => match info.parent_pid {
            Ok(Some(parent)) => Some(parent),
            _ => None,
        },
        Err(_) => None,
    }
}

/// Read the parent named by a process record, if any.
pub fn known_parent_pid(outcome: &RecordOutcome) -> (r: Option<Pid>)
    ensures
        r == known_parent(*outcome),
{
    match outcome {
        Ok(info) => match info.parent_pid {
            Ok(Some(parent)) => Some(parent),
            _ => None,
        },
        Err(_) => None,
    }
}

} // verus!
