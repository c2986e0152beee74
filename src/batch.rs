//! Batch collection policy: a batch of per-process query results is used
//! whole, or not at all.

use crate::process::{Pid, RecordOutcome};
use crate::report::{events_view, tree_events, ProcessEvent};
use crate::tree::{acyclic, is_build_violation, pids_distinct, ProcessTree, StructuralIntegrityError};
use vstd::prelude::*;

verus! {

/// Why a batch produced no report
#[derive(Debug)]
pub enum BatchError<E> {
    /// Enumeration itself failed for one of the processes
    Fatal(E),
    /// The batch's data is inconsistent
    Integrity(StructuralIntegrityError),
}

/// Every result of the sequence is a success.
pub open spec fn all_ok<T, E>(s: Seq<Result<T, E>>) -> bool {
    forall|i: int| 0 <= i < s.len() ==> s[i] is Ok
}

/// Result `j` is the first failure of the sequence.
pub open spec fn first_failure<T, E>(s: Seq<Result<T, E>>, j: int) -> bool {
    &&& 0 <= j < s.len()
    &&& s[j] is Err
    &&& forall|k: int| 0 <= k < j ==> s[k] is Ok
}

/// The successes of a sequence of results that holds no failure.
pub open spec fn successes<T, E>(s: Seq<Result<T, E>>) -> Seq<T> {
    s.map_values(|r: Result<T, E>| r->Ok_0)
}

/// Gather the results of a batch of queries: all of their values when every
/// query succeeded, else the first failure, and nothing of what the other
/// queries obtained.
pub fn collect_batch<T, E>(results: Vec<Result<T, E>>) -> (r: Result<Vec<T>, E>)
    ensures
        r is Ok <==> all_ok(results@),
        r matches Ok(v) ==> v@ == successes(results@),
        r matches Err(e) ==> exists|j: int| first_failure(results@, j) && results@[j] == Err::<T, E>(e),
{
    let ghost s = results@;
    let mut values: Vec<T> = Vec::new();
    for result in it: results.into_iter()
        invariant
            it.seq() == s,
            forall|k: int| 0 <= k < it.index() ==> s[k] is Ok,
            values@ == successes(s.take(it.index() as int)),
    {
        let ghost k = it.index();
        match result {
            Ok(value) => {
                values.push(value);
                assert(successes(s.take(k + 1)) =~= successes(s.take(k)).push(value));
            },
            Err(e) => {
                assert(first_failure(s, k));
                return Err(e);
            },
        }
    }
    assert(s.take(s.len() as int) =~= s);
    Ok(values)
}

/// Report on the host's running processes: build the process tree of a
/// complete batch, and describe each of its processes.
pub fn log_report(processes: Vec<(Pid, RecordOutcome)>) -> (r: Result<
    Vec<ProcessEvent>,
    StructuralIntegrityError,
>)
    ensures
        r is Ok <==> pids_distinct(processes@) && acyclic(processes@),
        r matches Ok(events) ==> exists|t: ProcessTree|
            t.built_from(processes@) && events_view(events@) == tree_events(t@),
        r matches Err(e) ==> is_build_violation(processes@, e),
{
    match ProcessTree::build(processes) {
        Ok(tree) => Ok(tree.log()),
        Err(e) => Err(e),
    }
}

/// Report on a batch of per-process query results, all or nothing: if any
/// query failed fatally, the first such failure is returned and nothing is
/// reported, whatever the other queries obtained.
pub fn report_batch<E>(results: Vec<Result<(Pid, RecordOutcome), E>>) -> (r: Result<
    Vec<ProcessEvent>,
    BatchError<E>,
>)
    ensures
        !all_ok(results@) ==> exists|j: int|
            first_failure(results@, j) && r == Err::<Vec<ProcessEvent>, BatchError<E>>(
                BatchError::Fatal(results@[j]->Err_0),
            ),
        all_ok(results@) ==> {
            let s = successes(results@);
            &&& r is Ok <==> pids_distinct(s) && acyclic(s)
            &&& r matches Ok(events) ==> exists|t: ProcessTree|
                t.built_from(s) && events_view(events@) == tree_events(t@)
            &&& r matches Err(e) ==> e matches BatchError::Integrity(v) && is_build_violation(s, v)
        },
{
    match collect_batch(results) {
        Err(e) => Err(BatchError::Fatal(e)),
        Ok(processes) => match log_report(processes) {
            Ok(events) => Ok(events),
            Err(e) => Err(BatchError::Integrity(e)),
        },
    }
}

} // verus!
