//! Classification of process query failures into the three levels of the
//! error taxonomy: one field, one record, or the whole batch.

use crate::process::{Pid, ProcessInfoError, ProcessInfoFieldError, RecordOutcome};
use vstd::prelude::*;

verus! {

/// A failure reported by the operating system for a process query
pub enum ProcessQueryError<E> {
    /// Not enough permissions to query the process
    AccessDenied(Pid),
    /// The process does not exist anymore
    NoSuchProcess(Pid),
    /// The process has exited, and its exit status is not reclaimed yet
    ZombieProcess(Pid),
    /// Process data could not be loaded at all
    Load(E),
}

/// What becomes of a process record when the query of one of its fields fails
pub enum FieldFailure<E> {
    /// Only this field is unavailable
    Field(ProcessInfoFieldError),
    /// The whole record is unavailable
    Record(ProcessInfoError),
    /// Enumeration failed: the whole batch is invalid
    Fatal(E),
    /// The failure names another process than the one that was queried
    WrongProcess { queried: Pid, reported: Pid },
}

/// The classification of a failed field query of process `queried`.
pub open spec fn field_failure<E>(queried: Pid, err: ProcessQueryError<E>) -> FieldFailure<E> {
    match err {
        ProcessQueryError::AccessDenied(p) => if p == queried {
            FieldFailure::Field(ProcessInfoFieldError::AccessDenied)
        } else {
            FieldFailure::WrongProcess { queried, reported: p }
        },
        ProcessQueryError::NoSuchProcess(p) => if p == queried {
            FieldFailure::Record(ProcessInfoError::NoSuchProcess)
        } else {
            FieldFailure::WrongProcess { queried, reported: p }
        },
        ProcessQueryError::ZombieProcess(p) => if p == queried {
            FieldFailure::Record(ProcessInfoError::ZombieProcess)
        } else {
            FieldFailure::WrongProcess { queried, reported: p }
        },
        ProcessQueryError::Load(e) => FieldFailure::Fatal(e),
    }
}

/// Classify the failure of a field query of process `queried`: a denied
/// field affects that field alone, a vanished or zombie process invalidates
/// the record, and a load failure invalidates the batch.
pub fn classify_field_error<E>(queried: Pid, err: ProcessQueryError<E>) -> (r: FieldFailure<E>)
    ensures
        r == field_failure(queried, err),
{
    match err {
        ProcessQueryError::AccessDenied(p) => if p == queried {
            FieldFailure::Field(ProcessInfoFieldError::AccessDenied)
        } else {
            FieldFailure::WrongProcess { queried, reported: p }
        },
        ProcessQueryError::NoSuchProcess(p) => if p == queried {
            FieldFailure::Record(ProcessInfoError::NoSuchProcess)
        } else {
            FieldFailure::WrongProcess { queried, reported: p }
        },
        ProcessQueryError::ZombieProcess(p) => if p == queried {
            FieldFailure::Record(ProcessInfoError::ZombieProcess)
        } else {
            FieldFailure::WrongProcess { queried, reported: p }
        },
        ProcessQueryError::Load(e) => FieldFailure::Fatal(e),
    }
}

/// Classify the failure to enumerate one process: the process was still
/// identified, with its whole record unavailable, unless process data could
/// not be loaded, which fails the batch.
pub fn classify_enumeration_error<E>(err: ProcessQueryError<E>) -> (r: Result<(Pid, RecordOutcome), E>)
    ensures
        r == match err {
            ProcessQueryError::AccessDenied(p) => Ok::<(Pid, RecordOutcome), E>(
                (p, Err(ProcessInfoError::AccessDenied)),
            ),
            ProcessQueryError::NoSuchProcess(p) => Ok((p, Err(ProcessInfoError::NoSuchProcess))),
            ProcessQueryError::ZombieProcess(p) => Ok((p, Err(ProcessInfoError::ZombieProcess))),
            ProcessQueryError::Load(e) => Err(e),
        },
{
    match err {
        ProcessQueryError::AccessDenied(p) => Ok((p, Err(ProcessInfoError::AccessDenied))),
        ProcessQueryError::NoSuchProcess(p) => Ok((p, Err(ProcessInfoError::NoSuchProcess))),
        ProcessQueryError::ZombieProcess(p) => Ok((p, Err(ProcessInfoError::ZombieProcess))),
        ProcessQueryError::Load(e) => Err(e),
    }
}

} // verus!
