//! The tree reporter: one descriptive event per process, in a deterministic
//! depth-first order over the process tree.

use crate::process::{CreateTime, Pid, ProcessInfoError, ProcessInfoFieldError, RecordOutcome};
use crate::tree::{ProcessTreeView, TreeNodeView};
use vstd::prelude::*;
use vstd::string::StringExecFns;

verus! {

/// What is reported of one process
#[derive(Debug)]
pub enum ProcessReport {
    /// The process was queried. Each field holds its text, or the reason why
    /// it is unavailable; a denied field is never given a default value.
    Found {
        name: Result<String, ProcessInfoFieldError>,
        /// Executable path, or "None" for a process without one
        exe: Result<String, ProcessInfoFieldError>,
        /// Arguments joined by spaces, or "None" for an empty command line
        command: Result<String, ProcessInfoFieldError>,
        create_time: Result<CreateTime, ProcessInfoFieldError>,
    },
    /// Access to the process' info was denied
    AccessDenied,
    /// The process no longer exists (it likely vanished, or isn't a real
    /// system process)
    Vanished,
    /// The process has exited, but its exit status is not reclaimed yet
    Zombie,
}

/// Abstract view of a process report, with texts as character sequences
pub enum ReportView {
    Found {
        name: Result<Seq<char>, ProcessInfoFieldError>,
        exe: Result<Seq<char>, ProcessInfoFieldError>,
        command: Result<Seq<char>, ProcessInfoFieldError>,
        create_time: Result<CreateTime, ProcessInfoFieldError>,
    },
    AccessDenied,
    Vanished,
    Zombie,
}

/// The view of a text field.
pub open spec fn text_view(t: Result<String, ProcessInfoFieldError>) -> Result<Seq<char>, ProcessInfoFieldError> {
    match t {
        Ok(s) => Ok(s@),
        Err(e) => Err(e),
    }
}

impl View for ProcessReport {
    type V = ReportView;

    open spec fn view(&self) -> ReportView {
        match self {
            ProcessReport::Found { name, exe, command, create_time } => ReportView::Found {
                name: text_view(*name),
                exe: text_view(*exe),
                command: text_view(*command),
                create_time: *create_time,
            },
            ProcessReport::AccessDenied => ReportView::AccessDenied,
            ProcessReport::Vanished => ReportView::Vanished,
            ProcessReport::Zombie => ReportView::Zombie,
        }
    }
}

/// Text of an executable path: "None" for an empty path.
pub open spec fn exe_text(exe: Seq<char>) -> Seq<char> {
    if exe.len() == 0 {
        "None"@
    } else {
        exe
    }
}

/// Arguments joined by single spaces.
pub open spec fn join_args(args: Seq<Seq<char>>) -> Seq<char>
    decreases args.len(),
{
    if args.len() == 0 {
        Seq::empty()
    } else if args.len() == 1 {
        args[0]
    } else {
        join_args(args.drop_last()) + " "@ + args.last()
    }
}

/// Text of a command line: "None" when it has no argument.
pub open spec fn command_text(args: Seq<Seq<char>>) -> Seq<char> {
    if args.len() == 0 {
        "None"@
    } else {
        join_args(args)
    }
}

/// The views of a sequence of strings.
pub open spec fn string_views(v: Seq<String>) -> Seq<Seq<char>> {
    v.map_values(|s: String| s@)
}

/// What is reported of a process with the given outcome.
pub open spec fn describe(outcome: RecordOutcome) -> ReportView {
    match outcome {
        Ok(info) => ReportView::Found {
            name: text_view(info.name),
            exe: match info.exe {
                Ok(exe) => Ok(exe_text(exe@)),
                Err(e) => Err(e),
            },
            command: match info.command {
                Ok(args) => Ok(command_text(string_views(args@))),
                Err(e) => Err(e),
            },
            create_time: info.create_time,
        },
        Err(ProcessInfoError::AccessDenied) => ReportView::AccessDenied,
        Err(ProcessInfoError::NoSuchProcess) => ReportView::Vanished,
        Err(ProcessInfoError::ZombieProcess) => ReportView::Zombie,
    }
}

/// Join the arguments of a command line with single spaces.
fn join_command(args: &Vec<String>) -> (r: String)
    ensures
        r@ == join_args(string_views(args@)),
{
    let ghost views = string_views(args@);
    let mut joined = String::new();
    for i in 0..args.len()
        invariant
            views == string_views(args@),
            joined@ == join_args(views.take(i as int)),
    {
        if i > 0 {
            joined.append(" ");
        }
        joined.append(args[i].as_str());
        proof {
            let t = views.take(i + 1);
            assert(t.drop_last() =~= views.take(i as int));
            assert(t.last() == args@[i as int]@);
            if i == 0 {
                assert(joined@ =~= join_args(t));
            }
        }
    }
    assert(views.take(args.len() as int) =~= views);
    joined
}

/// Describe one process from its outcome.
pub(crate) fn describe_outcome(outcome: &RecordOutcome) -> (r: ProcessReport)
    ensures
        r@ == describe(*outcome),
{
    match outcome {
        Ok(info) => {
            let name = match &info.name {
                Ok(name) => Ok(name.clone()),
                Err(e) => Err(*e),
            };
            let exe = match &info.exe {
                Ok(exe) => {
                    if exe.as_str().is_empty() {
                        Ok(String::from_str("None"))
                    } else {
                        Ok(exe.clone())
                    }
                },
                Err(e) => Err(*e),
            };
            let command = match &info.command {
                Ok(args) => {
                    if args.len() == 0 {
                        Ok(String::from_str("None"))
                    } else {
                        Ok(join_command(args))
                    }
                },
                Err(e) => Err(*e),
            };
            ProcessReport::Found { name, exe, command, create_time: info.create_time }
        },
        Err(ProcessInfoError::AccessDenied) => ProcessReport::AccessDenied,
        Err(ProcessInfoError::NoSuchProcess) => ProcessReport::Vanished,
        Err(ProcessInfoError::ZombieProcess) => ProcessReport::Zombie,
    }
}


/// One descriptive event of the tree report
#[derive(Debug)]
pub struct ProcessEvent {
    /// The process described
    pub pid: Pid,
    /// The process under which it was found, or `None` for a root
    pub parent_pid: Option<Pid>,
    /// What is known of the process
    pub report: ProcessReport,
}

/// Abstract view of an event
pub struct EventView {
    pub pid: Pid,
    pub parent_pid: Option<Pid>,
    pub report: ReportView,
}

impl View for ProcessEvent {
    type V = EventView;

    open spec fn view(&self) -> EventView {
        EventView { pid: self.pid, parent_pid: self.parent_pid, report: self.report@ }
    }
}

/// The views of a sequence of events.
pub open spec fn events_view(v: Seq<ProcessEvent>) -> Seq<EventView> {
    v.map_values(|e: ProcessEvent| e@)
}

/// The events of the subtree rooted at `pid`, found under `parent`: the
/// event of `pid`, then those of its children's subtrees in their order.
/// Below `depth` levels, children are no longer visited.
pub open spec fn subtree_events(
    nodes: Map<Pid, TreeNodeView>,
    pid: Pid,
    parent: Option<Pid>,
    depth: nat,
) -> Seq<EventView>
    decreases depth, 0nat,
{
    if !nodes.contains_key(pid) {
        Seq::empty()
    } else {
        seq![EventView { pid, parent_pid: parent, report: describe(nodes[pid].outcome) }] + if depth
            == 0 {
            Seq::empty()
        } else {
            forest_events(nodes, nodes[pid].children, Some(pid), (depth - 1) as nat)
        }
    }
}

/// The events of the subtrees rooted at each of `pids`, one after the other.
pub open spec fn forest_events(
    nodes: Map<Pid, TreeNodeView>,
    pids: Seq<Pid>,
    parent: Option<Pid>,
    depth: nat,
) -> Seq<EventView>
    decreases depth, pids.len() + 1,
{
    if pids.len() == 0 {
        Seq::empty()
    } else {
        forest_events(nodes, pids.drop_last(), parent, depth) + subtree_events(
            nodes,
            pids.last(),
            parent,
            depth,
        )
    }
}

/// The report of a whole tree: the subtrees of its roots, in order. No path
/// of a tree is longer than its number of nodes, which bounds the depth.
pub open spec fn tree_events(t: ProcessTreeView) -> Seq<EventView> {
    forest_events(t.nodes, t.roots, None, t.nodes.dom().len())
}

/// The events still owed for a stack of subtrees to visit, top first.
pub open spec fn pending_events(
    nodes: Map<Pid, TreeNodeView>,
    stack: Seq<(Pid, Option<Pid>, usize)>,
) -> Seq<EventView>
    decreases stack.len(),
{
    if stack.len() == 0 {
        Seq::empty()
    } else {
        subtree_events(nodes, stack.last().0, stack.last().1, stack.last().2 as nat) + pending_events(
            nodes,
            stack.drop_last(),
        )
    }
}

/// Push the subtrees of `pids` on a stack of subtrees to visit, the first
/// one on top.
pub(crate) fn push_subtrees(
    stack: &mut Vec<(Pid, Option<Pid>, usize)>,
    pids: &Vec<Pid>,
    parent: Option<Pid>,
    depth: usize,
    Ghost(nodes): Ghost<Map<Pid, TreeNodeView>>,
)
    ensures
        pending_events(nodes, final(stack)@) == forest_events(nodes, pids@, parent, depth as nat)
            + pending_events(nodes, old(stack)@),
{
    let ghost base = pending_events(nodes, stack@);
    let n = pids.len();
    let mut m = n;
    assert(pids@.take(n as int) =~= pids@);
    while m > 0
        invariant
            m <= n == pids@.len(),
            forest_events(nodes, pids@.take(m as int), parent, depth as nat) + pending_events(
                nodes,
                stack@,
            ) == forest_events(nodes, pids@, parent, depth as nat) + base,
        decreases m,
    {
        let ghost before = stack@;
        stack.push((pids[m - 1], parent, depth));
        proof {
            let t = pids@.take(m as int);
            assert(t.drop_last() =~= pids@.take(m - 1));
            assert(stack@.drop_last() =~= before);
            assert(forest_events(nodes, pids@.take(m - 1), parent, depth as nat) + pending_events(
                nodes,
                stack@,
            ) =~= forest_events(nodes, t, parent, depth as nat) + pending_events(nodes, before));
        }
        m = m - 1;
    }
    assert(pids@.take(0) =~= Seq::<Pid>::empty());
    assert(forest_events(nodes, pids@.take(0), parent, depth as nat) + pending_events(nodes, stack@)
        =~= pending_events(nodes, stack@));
    assert(pids@.take(n as int) =~= pids@);
}


/// Idempotent traversal: two reports of the same tree are identical, event
/// for event and character for character.
pub proof fn lemma_report_idempotent(
    tree: ProcessTreeView,
    first: Seq<ProcessEvent>,
    second: Seq<ProcessEvent>,
)
    requires
        events_view(first) == tree_events(tree),
        events_view(second) == tree_events(tree),
    ensures
        events_view(first) == events_view(second),
        first.len() == second.len(),
        forall|i: int|
            0 <= i < first.len() ==> #[trigger] first[i]@ == second[i]@,
{
    assert(events_view(first).len() == first.len());
    assert(events_view(second).len() == second.len());
    assert forall|i: int| 0 <= i < first.len() implies #[trigger] first[i]@ == second[i]@ by {
        assert(events_view(first)[i] == first[i]@);
        assert(events_view(second)[i] == second[i]@);
    }
}

} // verus!
