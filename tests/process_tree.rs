use benchmon::batch::{collect_batch, log_report, report_batch, BatchError};
use benchmon::process::{
    CreateTime, Pid, ProcessInfo, ProcessInfoError, ProcessInfoFieldError, RecordOutcome,
};
use benchmon::report::{ProcessEvent, ProcessReport};
use benchmon::tree::{ProcessTree, StructuralIntegrityError};

fn info(parent: Result<Option<Pid>, ProcessInfoFieldError>) -> RecordOutcome {
    Ok(ProcessInfo {
        parent_pid: parent,
        name: Ok("proc".to_string()),
        exe: Ok("/bin/proc".to_string()),
        command: Ok(vec!["proc".to_string(), "--flag".to_string()]),
        create_time: Ok(CreateTime { secs: 1_600_000_000, nanos: 5 }),
    })
}

fn child_of(parent: Pid) -> RecordOutcome {
    info(Ok(Some(parent)))
}

fn top() -> RecordOutcome {
    info(Ok(None))
}

fn children_of(tree: &ProcessTree, pid: Pid) -> Vec<Pid> {
    tree.children(pid).expect("node should exist").clone()
}

fn is_vanished(outcome: Option<&RecordOutcome>) -> bool {
    matches!(outcome, Some(Err(ProcessInfoError::NoSuchProcess)))
}

fn event_pids(events: &[ProcessEvent]) -> Vec<(Pid, Option<Pid>)> {
    events.iter().map(|e| (e.pid, e.parent_pid)).collect()
}

fn shape(tree: &ProcessTree, pids: &[Pid]) -> (Vec<Pid>, Vec<Option<Vec<Pid>>>) {
    let children = pids.iter().map(|&p| tree.children(p).cloned()).collect();
    (tree.roots().clone(), children)
}

#[test]
fn scenario_a_parent_with_two_children() {
    let tree = ProcessTree::build(vec![(1, top()), (2, child_of(1)), (3, child_of(1))]).unwrap();
    assert_eq!(tree.roots(), &vec![1]);
    assert_eq!(children_of(&tree, 1), vec![2, 3]);
    assert_eq!(children_of(&tree, 2), Vec::<Pid>::new());
    assert_eq!(children_of(&tree, 3), Vec::<Pid>::new());
    assert_eq!(tree.len(), 3);
}

#[test]
fn scenario_b_child_before_parent() {
    let forward = ProcessTree::build(vec![(3, child_of(1)), (1, top())]).unwrap();
    let backward = ProcessTree::build(vec![(1, top()), (3, child_of(1))]).unwrap();
    assert_eq!(shape(&forward, &[1, 3]), shape(&backward, &[1, 3]));
    assert_eq!(forward.roots(), &vec![1]);
    assert_eq!(children_of(&forward, 1), vec![3]);
    assert!(matches!(forward.outcome(1), Some(Ok(_))));
    assert_eq!(forward.len(), 2);
}

#[test]
fn scenario_c_denied_parent_field_makes_a_root() {
    let tree = ProcessTree::build(vec![(5, info(Err(ProcessInfoFieldError::AccessDenied)))]).unwrap();
    assert_eq!(tree.roots(), &vec![5]);
    assert_eq!(tree.len(), 1);
}

#[test]
fn scenario_d_vanished_parent_is_a_placeholder_root() {
    let tree = ProcessTree::build(vec![(7, child_of(99))]).unwrap();
    assert!(is_vanished(tree.outcome(99)));
    assert_eq!(children_of(&tree, 99), vec![7]);
    assert_eq!(tree.roots(), &vec![99]);
    assert_eq!(tree.len(), 2);
}

#[test]
fn scenario_e_fatal_failure_mid_batch() {
    let results: Vec<Result<(Pid, RecordOutcome), &str>> = vec![Ok((1, top())), Err("load failed")];
    match report_batch(results) {
        Err(BatchError::Fatal(e)) => assert_eq!(e, "load failed"),
        _ => panic!("a fatal failure must fail the whole batch"),
    }
}

#[test]
fn batch_atomicity_after_many_successes() {
    let mut results: Vec<Result<(Pid, RecordOutcome), u32>> = Vec::new();
    for pid in 1..50 {
        results.push(Ok((pid, child_of(0))));
    }
    results.push(Err(7));
    results.push(Ok((60, top())));
    results.push(Err(8));
    assert!(matches!(report_batch(results), Err(BatchError::Fatal(7))));
}

#[test]
fn collect_batch_keeps_every_value_in_order() {
    let results: Vec<Result<u32, ()>> = vec![Ok(3), Ok(1), Ok(2)];
    assert_eq!(collect_batch(results), Ok(vec![3, 1, 2]));
    let failed: Vec<Result<u32, char>> = vec![Ok(3), Err('a'), Ok(1), Err('b')];
    assert_eq!(collect_batch(failed), Err('a'));
    let empty: Vec<Result<u32, char>> = Vec::new();
    assert_eq!(collect_batch(empty), Ok(Vec::new()));
}

#[test]
fn order_independence_over_permutations() {
    let entries = || {
        vec![
            (4, child_of(2)),
            (1, top()),
            (2, child_of(1)),
            (9, Err(ProcessInfoError::ZombieProcess)),
            (3, child_of(1)),
            (5, child_of(42)),
        ]
    };
    let pids = [1, 2, 3, 4, 5, 9, 42];
    let reference = ProcessTree::build(entries()).unwrap();
    let mut permuted = entries();
    permuted.reverse();
    let reversed = ProcessTree::build(permuted).unwrap();
    assert_eq!(shape(&reference, &pids), shape(&reversed, &pids));
    let mut rotated = entries();
    rotated.rotate_left(2);
    let rotated = ProcessTree::build(rotated).unwrap();
    assert_eq!(shape(&reference, &pids), shape(&rotated, &pids));
    assert_eq!(reference.roots(), &vec![1, 9, 42]);
    assert_eq!(event_pids(&reference.log()), event_pids(&reversed.log()));
}

#[test]
fn no_orphaned_children() {
    let tree = ProcessTree::build(vec![
        (2, child_of(1)),
        (3, child_of(2)),
        (1, top()),
        (8, Err(ProcessInfoError::AccessDenied)),
        (6, child_of(5)),
    ])
    .unwrap();
    let pids = [1, 2, 3, 5, 6, 8];
    for &pid in &pids {
        let parents: Vec<Pid> = pids
            .iter()
            .copied()
            .filter(|&p| children_of(&tree, p).contains(&pid))
            .collect();
        if tree.roots().contains(&pid) {
            assert!(parents.is_empty());
        } else {
            assert_eq!(parents.len(), 1);
        }
    }
    assert_eq!(tree.roots(), &vec![1, 5, 8]);
}

#[test]
fn placeholder_settled_by_later_record() {
    let tree = ProcessTree::build(vec![(7, child_of(3)), (3, Err(ProcessInfoError::ZombieProcess))]).unwrap();
    assert!(matches!(tree.outcome(3), Some(Err(ProcessInfoError::ZombieProcess))));
    assert_eq!(tree.roots(), &vec![3]);
    let unsettled = ProcessTree::build(vec![(7, child_of(3))]).unwrap();
    assert!(is_vanished(unsettled.outcome(3)));
}

#[test]
fn repeated_child_is_an_integrity_violation() {
    let result = ProcessTree::build(vec![(2, child_of(1)), (3, top()), (2, child_of(1))]);
    assert!(matches!(
        result,
        Err(StructuralIntegrityError::DuplicateChild { parent: 1, child: 2 })
    ));
}

#[test]
fn repeated_outcome_is_an_integrity_violation() {
    let result = ProcessTree::build(vec![(2, top()), (2, Err(ProcessInfoError::NoSuchProcess))]);
    assert!(matches!(result, Err(StructuralIntegrityError::DuplicateOutcome { pid: 2 })));
    let reparented = ProcessTree::build(vec![(2, child_of(1)), (2, child_of(5))]);
    assert!(matches!(reparented, Err(StructuralIntegrityError::DuplicateOutcome { pid: 2 })));
    match report_batch::<()>(vec![Ok((4, top())), Ok((4, top()))]) {
        Err(BatchError::Integrity(StructuralIntegrityError::DuplicateOutcome { pid: 4 })) => {}
        _ => panic!("a repeated process must fail the batch"),
    }
}

#[test]
fn empty_batch_builds_empty_tree() {
    let tree = ProcessTree::build(Vec::new()).unwrap();
    assert!(tree.roots().is_empty());
    assert_eq!(tree.len(), 0);
    assert!(tree.log().is_empty());
    assert!(tree.children(1).is_none());
}

#[test]
fn report_is_depth_first_in_increasing_order() {
    let tree = ProcessTree::build(vec![
        (30, child_of(10)),
        (11, child_of(1)),
        (10, child_of(1)),
        (1, top()),
        (20, child_of(10)),
        (2, Err(ProcessInfoError::NoSuchProcess)),
        (12, child_of(11)),
    ])
    .unwrap();
    let events = tree.log();
    assert_eq!(
        event_pids(&events),
        vec![
            (1, None),
            (10, Some(1)),
            (20, Some(10)),
            (30, Some(10)),
            (11, Some(1)),
            (12, Some(11)),
            (2, None),
        ]
    );
}

#[test]
fn report_twice_is_identical() {
    let tree = ProcessTree::build(vec![(3, child_of(1)), (1, top()), (4, child_of(77))]).unwrap();
    let first = tree.log();
    let second = tree.log();
    assert_eq!(format!("{:?}", first), format!("{:?}", second));
    assert_eq!(event_pids(&first), vec![(1, None), (3, Some(1)), (77, None), (4, Some(77))]);
}

#[test]
fn report_describes_each_outcome() {
    let denied = ProcessInfoFieldError::AccessDenied;
    let tree = ProcessTree::build(vec![
        (
            1,
            Ok(ProcessInfo {
                parent_pid: Ok(None),
                name: Err(denied),
                exe: Ok(String::new()),
                command: Ok(Vec::new()),
                create_time: Err(denied),
            }),
        ),
        (2, child_of(1)),
        (3, Err(ProcessInfoError::AccessDenied)),
        (4, Err(ProcessInfoError::ZombieProcess)),
        (5, Err(ProcessInfoError::NoSuchProcess)),
    ])
    .unwrap();
    let events = tree.log();
    assert_eq!(events.len(), 5);
    match &events[0].report {
        ProcessReport::Found { name, exe, command, create_time } => {
            assert_eq!(name, &Err(denied));
            assert_eq!(exe, &Ok("None".to_string()));
            assert_eq!(command, &Ok("None".to_string()));
            assert_eq!(create_time, &Err(denied));
        }
        _ => panic!("process 1 was queried"),
    }
    match &events[1].report {
        ProcessReport::Found { name, exe, command, create_time } => {
            assert_eq!(name, &Ok("proc".to_string()));
            assert_eq!(exe, &Ok("/bin/proc".to_string()));
            assert_eq!(command, &Ok("proc --flag".to_string()));
            assert_eq!(create_time, &Ok(CreateTime { secs: 1_600_000_000, nanos: 5 }));
        }
        _ => panic!("process 2 was queried"),
    }
    assert!(matches!(events[2].report, ProcessReport::AccessDenied));
    assert!(matches!(events[3].report, ProcessReport::Zombie));
    assert!(matches!(events[4].report, ProcessReport::Vanished));
}

#[test]
fn command_line_joins_with_single_spaces() {
    let outcome = Ok(ProcessInfo {
        parent_pid: Ok(None),
        name: Ok("sh".to_string()),
        exe: Ok("/bin/sh".to_string()),
        command: Ok(vec!["sh".to_string(), "-c".to_string(), "echo hi".to_string()]),
        create_time: Ok(CreateTime { secs: 0, nanos: 0 }),
    });
    let events = log_report(vec![(1, outcome)]).unwrap();
    match &events[0].report {
        ProcessReport::Found { command, .. } => assert_eq!(command, &Ok("sh -c echo hi".to_string())),
        _ => panic!("process 1 was queried"),
    }
}

#[test]
fn log_report_rejects_repeated_processes() {
    assert!(matches!(
        log_report(vec![(1, top()), (1, top())]),
        Err(StructuralIntegrityError::DuplicateOutcome { pid: 1 })
    ));
    assert_eq!(log_report(vec![(1, top()), (2, child_of(1))]).unwrap().len(), 2);
}

#[test]
fn self_parented_process_is_a_cycle() {
    let result = ProcessTree::build(vec![(0, child_of(0)), (1, child_of(0))]);
    assert!(matches!(result, Err(StructuralIntegrityError::Cycle { pid: 0 })));
}

#[test]
fn parent_loop_names_its_least_member() {
    let result = ProcessTree::build(vec![
        (1, top()),
        (9, child_of(3)),
        (3, child_of(5)),
        (5, child_of(9)),
        (4, child_of(3)),
    ]);
    assert!(matches!(result, Err(StructuralIntegrityError::Cycle { pid: 3 })));
    match report_batch::<()>(vec![Ok((6, child_of(7))), Ok((7, child_of(6)))]) {
        Err(BatchError::Integrity(StructuralIntegrityError::Cycle { pid: 6 })) => {}
        _ => panic!("a parent loop must fail the batch"),
    }
}

#[test]
fn every_node_is_reported_once() {
    let tree = ProcessTree::build(vec![
        (5, child_of(2)),
        (2, child_of(1)),
        (3, child_of(1)),
        (8, child_of(100)),
        (1, top()),
    ])
    .unwrap();
    let mut pids: Vec<Pid> = tree.log().iter().map(|e| e.pid).collect();
    assert_eq!(pids, vec![1, 2, 5, 3, 100, 8]);
    pids.sort();
    assert_eq!(pids, vec![1, 2, 3, 5, 8, 100]);
    assert_eq!(tree.len(), 6);
}
