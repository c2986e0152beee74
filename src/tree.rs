//! The process tree: reconstruction from an unordered batch of per-process
//! query outcomes, in a single pass with placeholder nodes.

use crate::process::{known_parent, known_parent_pid, Pid, ProcessInfo, ProcessInfoError, RecordOutcome};
use crate::report::{
    describe_outcome, events_view, pending_events, push_subtrees, tree_events, ProcessEvent,
};
use crate::sorted::{increasing, insert_sorted, lemma_increasing_unique};
use std::collections::HashMap;
use vstd::prelude::*;
use vstd::seq_lib::to_multiset_contains;

verus! {

broadcast use vstd::std_specs::hash::group_hash_axioms;

/// A data-integrity violation found while building a process tree. It
/// invalidates the whole batch.
#[derive(Copy, Clone, Debug, Eq, PartialEq, Structural)]
pub enum StructuralIntegrityError {
    /// The same process was registered twice as a child of `parent`.
    DuplicateChild { parent: Pid, child: Pid },
    /// A second authoritative outcome arrived for the same process.
    DuplicateOutcome { pid: Pid },
    /// Parent links from this process loop without reaching a root: it is
    /// its own ancestor, or descends from a process that is.
    Cycle { pid: Pid },
}

/// A node of the process tree
pub struct ProcessTreeNode {
    /// Info about this process gathered during process enumeration.
    ///
    /// A node first created because another process names it as its parent
    /// holds `Err(ProcessInfoError::NoSuchProcess)` until its own outcome
    /// arrives, which is then what remains if it never does.
    pub(crate) process_info: RecordOutcome,
    /// Children of this process, in increasing order
    pub(crate) children: Vec<Pid>,
    /// Whether this node's own outcome has arrived
    pub(crate) settled: bool,
}

/// The process tree that is generated and reported on
pub struct ProcessTree {
    /// Roots of the process tree, which have no known parent, in increasing
    /// order
    pub(crate) roots: Vec<Pid>,
    /// Nodes of the process tree (per-process info + children)
    pub(crate) nodes: HashMap<Pid, ProcessTreeNode>,
}

/// Abstract view of a tree node: its outcome and its ordered children
pub struct TreeNodeView {
    pub outcome: RecordOutcome,
    pub children: Seq<Pid>,
}

/// Abstract view of a process tree: its ordered roots and its node table
pub struct ProcessTreeView {
    pub roots: Seq<Pid>,
    pub nodes: Map<Pid, TreeNodeView>,
}

impl View for ProcessTree {
    type V = ProcessTreeView;

    closed spec fn view(&self) -> ProcessTreeView {
        ProcessTreeView {
            roots: self.roots@,
            nodes: self.nodes@.map_values(
                |n: ProcessTreeNode| TreeNodeView { outcome: n.process_info, children: n.children@ },
            ),
        }
    }
}

/// No two entries of a batch name the same process.
pub open spec fn pids_distinct(s: Seq<(Pid, RecordOutcome)>) -> bool {
    forall|i: int, j: int| 0 <= i < j < s.len() ==> s[i].0 != s[j].0
}

/// The batch holds an outcome for process `p`.
pub open spec fn supplies(s: Seq<(Pid, RecordOutcome)>, p: Pid) -> bool {
    exists|i: int| 0 <= i < s.len() && s[i].0 == p
}

/// Some record of the batch names `p` as its parent.
pub open spec fn names_as_parent(s: Seq<(Pid, RecordOutcome)>, p: Pid) -> bool {
    exists|i: int| 0 <= i < s.len() && known_parent(s[i].1) == Some(p)
}

/// The processes that get a node: those of the batch, and their parents.
pub open spec fn tree_pids(s: Seq<(Pid, RecordOutcome)>) -> Set<Pid> {
    Set::new(|p: Pid| supplies(s, p) || names_as_parent(s, p))
}

/// The outcome of the node of `p`: the one supplied in the batch, else the
/// placeholder `NoSuchProcess`.
pub open spec fn settled_outcome(s: Seq<(Pid, RecordOutcome)>, p: Pid) -> RecordOutcome {
    if supplies(s, p) {
        s[choose|i: int| 0 <= i < s.len() && s[i].0 == p].1
    } else {
        Err(ProcessInfoError::NoSuchProcess)
    }
}

/// The processes of the batch whose record names `p` as their parent.
pub open spec fn children_in(s: Seq<(Pid, RecordOutcome)>, p: Pid) -> Set<Pid> {
    Set::new(|c: Pid| exists|i: int| 0 <= i < s.len() && s[i].0 == c && known_parent(s[i].1) == Some(p))
}

/// The processes of the tree with no known parent.
pub open spec fn roots_in(s: Seq<(Pid, RecordOutcome)>) -> Set<Pid> {
    tree_pids(s).filter(|p: Pid| known_parent(settled_outcome(s, p)) is None)
}

/// Entry `j` names a process that an earlier entry already named.
pub open spec fn repeats_earlier(s: Seq<(Pid, RecordOutcome)>, j: int) -> bool {
    exists|i: int| 0 <= i < j && s[i].0 == s[j].0
}

/// Entry `j` is the first entry that repeats a process.
pub open spec fn first_repeat(s: Seq<(Pid, RecordOutcome)>, j: int) -> bool {
    &&& 0 <= j < s.len()
    &&& repeats_earlier(s, j)
    &&& forall|k: int| 0 <= k < j ==> !repeats_earlier(s, k)
}

/// The violation that the repeated entry `j` causes: its registration as a
/// child where the earlier entry was registered under the same parent, else
/// its second outcome.
pub open spec fn violation_at(s: Seq<(Pid, RecordOutcome)>, j: int) -> StructuralIntegrityError {
    let p = s[j].0;
    match known_parent(s[j].1) {
        Some(q) => if exists|i: int| 0 <= i < j && s[i].0 == p && known_parent(s[i].1) == Some(q) {
            StructuralIntegrityError::DuplicateChild { parent: q, child: p }
        } else {
            StructuralIntegrityError::DuplicateOutcome { pid: p }
        },
        None => StructuralIntegrityError::DuplicateOutcome { pid: p },
    }
}

/// Following parent links from `p` reaches a process with no known parent
/// within `steps` links.
pub open spec fn reaches_root(s: Seq<(Pid, RecordOutcome)>, p: Pid, steps: nat) -> bool
    decreases steps,
{
    match known_parent(settled_outcome(s, p)) {
        None => true,
        Some(q) => steps > 0 && reaches_root(s, q, (steps - 1) as nat),
    }
}

/// No process is its own ancestor: from every node, parent links reach a
/// root. (A path without repetition has fewer links than there are nodes.)
pub open spec fn acyclic(s: Seq<(Pid, RecordOutcome)>) -> bool {
    forall|p: Pid| #[trigger] tree_pids(s).contains(p) ==> reaches_root(s, p, tree_pids(s).len())
}

/// `e` is the violation that stops the building of a tree from the batch:
/// that of the first entry that repeats a process, else a loop of parent
/// links through the least process that never reaches a root.
pub open spec fn is_build_violation(s: Seq<(Pid, RecordOutcome)>, e: StructuralIntegrityError) -> bool {
    if pids_distinct(s) {
        e == StructuralIntegrityError::Cycle { pid: least_cycle_member(s) }
    } else {
        exists|j: int| first_repeat(s, j) && e == violation_at(s, j)
    }
}

/// `p` is the least process from which parent links never reach a root.
pub open spec fn is_least_cycle_member(s: Seq<(Pid, RecordOutcome)>, p: Pid) -> bool {
    &&& tree_pids(s).contains(p)
    &&& !reaches_root(s, p, tree_pids(s).len())
    &&& forall|q: Pid|
        tree_pids(s).contains(q) && !reaches_root(s, q, tree_pids(s).len()) ==> p <= q
}

/// The least process from which parent links never reach a root.
pub open spec fn least_cycle_member(s: Seq<(Pid, RecordOutcome)>) -> Pid {
    choose|p: Pid| is_least_cycle_member(s, p)
}

impl ProcessTree {

    /// Build a process tree from the per-process outcomes of one batch.
    ///
    /// Every process of the batch gets a node holding its outcome and its
    /// children; a process that is only named as a parent gets a placeholder
    /// node. The batch must name each process at most once: the first entry
    /// that names a process again is a violation. Parent links must not loop:
    /// the least process from which they never reach a root is a violation.
    /// On a violation, no tree is built.
    pub fn build(processes: Vec<(Pid, RecordOutcome)>) -> (r: Result<
        ProcessTree,
        StructuralIntegrityError,
    >)
        ensures
            r is Ok <==> pids_distinct(processes@) && acyclic(processes@),
            r matches Ok(tree) ==> tree.built_from(processes@),
            r matches Err(e) ==> is_build_violation(processes@, e),
    {
        let ghost s = processes@;
        let (tree, pids) = match ProcessTree::assemble(processes) {
            Ok(assembled) => assembled,
            Err(e) => return Err(e),
        };
        match tree.least_unrooted(&pids, Ghost(s)) {
            None => Ok(tree),
            Some(pid) => Err(StructuralIntegrityError::Cycle { pid }),
        }
    }

    /// Whether following parent links from `pid` reaches a root.
    fn reaches_a_root(&self, pid: Pid, Ghost(s): Ghost<Seq<(Pid, RecordOutcome)>>) -> (r: bool)
        requires
            self.built_from(s),
            tree_pids(s).contains(pid),
        ensures
            r == reaches_root(s, pid, tree_pids(s).len()),
    {
        assert(self@.nodes.dom() =~= self.nodes@.dom());
        let mut steps = self.nodes.len();
        let mut cur = pid;
        loop
            invariant
                self.built_from(s),
                tree_pids(s).contains(cur),
                reaches_root(s, pid, tree_pids(s).len()) == reaches_root(s, cur, steps as nat),
            decreases steps,
        {
            assert(self@.nodes[cur].outcome == settled_outcome(s, cur));
            let parent = match self.nodes.get(&cur) {
                Some(node) => known_parent_pid(&node.process_info),
                None => None,
            };
            match parent {
                None => return true,
                Some(q) => {
                    if steps == 0 {
                        return false;
                    }
                    proof {
                        assert(supplies(s, cur));
                        let i = choose|i: int| 0 <= i < s.len() && s[i].0 == cur;
                        assert(names_as_parent(s, q));
                    }
                    cur = q;
                    steps = steps - 1;
                },
            }
        }
    }

    /// The least process from which parent links never reach a root, if any.
    fn least_unrooted(&self, keys: &Vec<Pid>, Ghost(s): Ghost<Seq<(Pid, RecordOutcome)>>) -> (r: Option<Pid>)
        requires
            self.built_from(s),
            keys@.to_set() == tree_pids(s),
        ensures
            r is None <==> acyclic(s),
            r matches Some(p) ==> p == least_cycle_member(s),
    {
        let mut least: Option<Pid> = None;
        let ghost n = tree_pids(s).len();
        let ghost dom = tree_pids(s);
        for j in 0..keys.len()
            invariant
                self.built_from(s),
                keys@.to_set() == dom,
                dom == tree_pids(s),
                n == dom.len(),
                least matches Some(p) ==> dom.contains(p) && !reaches_root(s, p, n),
                least matches Some(p) ==> forall|k: int| 0 <= k < j && !reaches_root(s, keys@[k], n) ==> p <= keys@[k],
                least is None ==> forall|k: int| 0 <= k < j ==> reaches_root(s, keys@[k], n),
        {
            let p = keys[j];
            assert(keys@.to_set().contains(p));
            if !self.reaches_a_root(p, Ghost(s)) {
                match least {
                    Some(q) => if p < q {
                        least = Some(p);
                    },
                    None => least = Some(p),
                }
            }
        }
        proof {
            assert forall|q: Pid| #[trigger] dom.contains(q) implies exists|k: int|
                0 <= k < keys@.len() && keys@[k] == q by {
                assert(keys@.to_set().contains(q));
            }
            if let Some(p) = least {
                assert(is_least_cycle_member(s, p));
                let c = least_cycle_member(s);
                assert(is_least_cycle_member(s, c));
                assert(c <= p && p <= c);
            } else {
                assert forall|q: Pid| #[trigger] dom.contains(q) implies reaches_root(s, q, n) by {
                    let k = choose|k: int| 0 <= k < keys@.len() && keys@[k] == q;
                }
            }
        }
        least
    }

    /// Build the nodes and roots of a process tree in a single pass over a
    /// batch, failing on the first entry that names a process again.
    fn assemble(processes: Vec<(Pid, RecordOutcome)>) -> (r: Result<
        (ProcessTree, Vec<Pid>),
        StructuralIntegrityError,
    >)
        ensures
            r is Ok <==> pids_distinct(processes@),
            r matches Ok((tree, pids)) ==> tree.built_from(processes@) && pids@.to_set()
                == tree_pids(processes@),
            r matches Err(e) ==> exists|j: int|
                first_repeat(processes@, j) && e == violation_at(processes@, j),
    {
        let ghost s = processes@;
        let mut nodes: HashMap<Pid, ProcessTreeNode> = HashMap::new();
        // Every process that got a node, for the enumeration of the roots
        let mut known: Vec<Pid> = Vec::new();
        for entry in it: processes.into_iter()
            invariant
                it.seq() == s,
                forall|i: int, j: int| 0 <= i < j < it.index() ==> s[i].0 != s[j].0,
                forall|p: Pid| #[trigger]
                    nodes@.contains_key(p) <==> (exists|i: int|
                        0 <= i < it.index() && s[i].0 == p) || (exists|i: int|
                        0 <= i < it.index() && known_parent(s[i].1) == Some(p)),
                forall|p: Pid| #[trigger] known@.contains(p) <==> nodes@.contains_key(p),
                forall|i: int|
                    0 <= i < it.index() ==> #[trigger] nodes@[s[i].0].process_info == s[i].1
                        && nodes@[s[i].0].settled,
                forall|p: Pid| #[trigger]
                    nodes@.contains_key(p) && !(exists|i: int| 0 <= i < it.index() && s[i].0 == p)
                        ==> nodes@[p].process_info == Err::<ProcessInfo, ProcessInfoError>(
                        ProcessInfoError::NoSuchProcess,
                    ) && !nodes@[p].settled,
                forall|p: Pid| #[trigger]
                    nodes@.contains_key(p) ==> increasing(nodes@[p].children@),
                forall|p: Pid, c: Pid|
                    nodes@.contains_key(p) ==> (#[trigger] nodes@[p].children@.contains(c) <==> exists|i: int|
                        0 <= i < it.index() && s[i].0 == c && known_parent(s[i].1) == Some(p)),
        {
            let (pid, process_info) = entry;
            let ghost k = it.index();
            let ghost nodes0 = nodes@;
            let ghost known0 = known@;
            assert(s[k] == (pid, process_info));
            // Did we query this process' parent successfully?
            // If so, add it as a child of that parent process in the tree
            if let Some(parent_pid) = known_parent_pid(&process_info) {
                let mut parent_node = match nodes.remove(&parent_pid) {
                    Some(node) => node,
                    None => {
                        known.push(parent_pid);
                        assert(known@.last() == parent_pid);
                        ProcessTreeNode {
                            process_info: Err(ProcessInfoError::NoSuchProcess),
                            children: Vec::new(),
                            settled: false,
                        }
                    },
                };
                let ghost parent0 = parent_node;
                proof {
                    assert forall|q: Pid| #[trigger] known@.contains(q) <==> nodes@.contains_key(q)
                        || q == parent_pid by {
                        if known@.contains(q) && !known0.contains(q) {
                            let m = choose|m: int| 0 <= m < known@.len() && known@[m] == q;
                            assert(m == known0.len());
                        }
                        if known0.contains(q) {
                            let m = choose|m: int| 0 <= m < known0.len() && known0[m] == q;
                            assert(known@[m] == q);
                        }
                    }
                }
                let inserted = insert_sorted(&mut parent_node.children, pid);
                proof {
                    assert(parent_node.children@.contains(pid) == parent_node.children@.to_set().contains(pid));
                    assert(parent0.children@.contains(pid) == parent0.children@.to_set().contains(pid));
                }
                nodes.insert(parent_pid, parent_node);
                proof {
                    assert forall|c: Pid| #[trigger] nodes@[parent_pid].children@.contains(c) <==> (
                    nodes0.contains_key(parent_pid) && nodes0[parent_pid].children@.contains(c)) || c
                        == pid by {
                        assert(nodes@[parent_pid].children@.contains(c)
                            == nodes@[parent_pid].children@.to_set().contains(c));
                        assert(parent0.children@.contains(c) == parent0.children@.to_set().contains(c));
                    }
                }
                if !inserted {
                    proof {
                        let i = choose|i: int|
                            0 <= i < k && s[i].0 == pid && known_parent(s[i].1) == Some(parent_pid);
                        assert(repeats_earlier(s, k));
                        assert forall|m: int| 0 <= m < k implies !repeats_earlier(s, m) by {
                            if repeats_earlier(s, m) {
                                let i2 = choose|i2: int| 0 <= i2 < m && s[i2].0 == s[m].0;
                            }
                        }
                        assert(first_repeat(s, k));
                    }
                    return Err(StructuralIntegrityError::DuplicateChild { parent: parent_pid, child: pid });
                }
            }
            let ghost nodes1 = nodes@;
            let ghost known1 = known@;
            assert forall|p: Pid, c: Pid| nodes1.contains_key(p) implies (
            #[trigger] nodes1[p].children@.contains(c) <==> (nodes0.contains_key(p)
                && nodes0[p].children@.contains(c)) || (Some(p) == known_parent(s[k].1) && c
                == pid)) by {
                if Some(p) != known_parent(s[k].1) {
                    assert(nodes1[p] == nodes0[p]);
                }
            }
            // Now, fill that process' node in the process tree
            match nodes.remove(&pid) {
                None => {
                    known.push(pid);
                    nodes.insert(pid, ProcessTreeNode { process_info, children: Vec::new(), settled: true });
                    proof {
                        assert forall|q: Pid| #[trigger] known@.contains(q) <==> nodes@.contains_key(q) by {
                            if known@.contains(q) && !known1.contains(q) {
                                let m = choose|m: int| 0 <= m < known@.len() && known@[m] == q;
                                assert(m == known1.len());
                            }
                            if known1.contains(q) {
                                let m = choose|m: int| 0 <= m < known1.len() && known1[m] == q;
                                assert(known@[m] == q);
                            }
                            if q == pid {
                                assert(known@[known1.len() as int] == pid);
                            }
                        }
                    }
                },
                Some(mut node) => {
                    if node.settled {
                        proof {
                            let i = choose|i: int| 0 <= i < k && s[i].0 == pid;
                            assert(repeats_earlier(s, k));
                            assert forall|m: int| 0 <= m < k implies !repeats_earlier(s, m) by {
                                if repeats_earlier(s, m) {
                                    let i2 = choose|i2: int| 0 <= i2 < m && s[i2].0 == s[m].0;
                                }
                            }
                            assert(first_repeat(s, k));
                            if let Some(q) = known_parent(s[k].1) {
                                if exists|i3: int| 0 <= i3 < k && s[i3].0 == pid && known_parent(s[i3].1) == Some(q) {
                                    let i3 = choose|i3: int| 0 <= i3 < k && s[i3].0 == pid && known_parent(s[i3].1) == Some(q);
                                    assert(nodes0.contains_key(q));
                                    assert(nodes0[q].children@.contains(pid));
                                }
                            }
                        }
                        nodes.insert(pid, node);
                        return Err(StructuralIntegrityError::DuplicateOutcome { pid });
                    }
                    node.process_info = process_info;
                    node.settled = true;
                    nodes.insert(pid, node);
                    proof {
                        assert forall|q: Pid| #[trigger] known@.contains(q) <==> nodes@.contains_key(q) by {
                            assert(known1.contains(q) <==> nodes1.contains_key(q));
                        }
                    }
                },
            }
            proof {
                assert forall|p: Pid| #[trigger] nodes@.contains_key(p) implies (nodes1.contains_key(p)
                    ==> nodes@[p].children@ == nodes1[p].children@) && (!nodes1.contains_key(p)
                    ==> nodes@[p].children@.len() == 0) by {}
                assert forall|p: Pid, c: Pid| nodes@.contains_key(p) implies (
                #[trigger] nodes@[p].children@.contains(c) <==> exists|i: int|
                    0 <= i < k + 1 && s[i].0 == c && known_parent(s[i].1) == Some(p)) by {
                    if nodes1.contains_key(p) {
                        assert(nodes@[p].children@ == nodes1[p].children@);
                        if nodes1[p].children@.contains(c) {
                            if nodes0.contains_key(p) && nodes0[p].children@.contains(c) {
                                let i = choose|i: int|
                                    0 <= i < k && s[i].0 == c && known_parent(s[i].1) == Some(p);
                            }
                        }
                        if exists|i: int| 0 <= i < k + 1 && s[i].0 == c && known_parent(s[i].1) == Some(p) {
                            let i = choose|i: int|
                                0 <= i < k + 1 && s[i].0 == c && known_parent(s[i].1) == Some(p);
                            if i < k {
                                assert(nodes0.contains_key(p));
                                assert(nodes0[p].children@.contains(c));
                            }
                        }
                    } else {
                        assert(!nodes0.contains_key(p));
                        assert(nodes@[p].children@.len() == 0);
                        if exists|i: int| 0 <= i < k + 1 && s[i].0 == c && known_parent(s[i].1) == Some(p) {
                            let i = choose|i: int|
                                0 <= i < k + 1 && s[i].0 == c && known_parent(s[i].1) == Some(p);
                            assert(nodes0.contains_key(p) || i == k);
                        }
                    }
                }
                assert forall|i: int, j: int| 0 <= i < j <= k implies s[i].0 != s[j].0 by {
                    if j == k && s[i].0 == s[j].0 {
                        assert(nodes0.contains_key(pid));
                    }
                }
            }
        }
        let ghost n = nodes@;
        proof {
            assert(pids_distinct(s));
            assert(n.dom() =~= tree_pids(s));
            assert forall|p: Pid| #[trigger] tree_pids(s).contains(p) implies n[p].process_info
                == settled_outcome(s, p) && n[p].children@.to_set() == children_in(s, p) by {
                if supplies(s, p) {
                    let i = choose|i: int| 0 <= i < s.len() && s[i].0 == p;
                    assert(n[s[i].0].process_info == s[i].1);
                }
                assert(n[p].children@.to_set() =~= children_in(s, p)) by {
                    assert forall|c: Pid| n[p].children@.to_set().contains(c) == children_in(s, p).contains(c) by {
                        assert(n[p].children@.contains(c) == n[p].children@.to_set().contains(c));
                    }
                }
            }
        }
        // Enumerate the roots of the process tree, which have no known parents
        let mut roots: Vec<Pid> = Vec::new();
        for j in 0..known.len()
            invariant
                increasing(roots@),
                forall|p: Pid| #[trigger] known@.contains(p) <==> nodes@.contains_key(p),
                forall|p: Pid| #[trigger]
                    roots@.contains(p) <==> exists|m: int|
                        0 <= m < j && known@[m] == p && nodes@.contains_key(p)
                            && known_parent(nodes@[p].process_info) is None,
        {
            let p = known[j];
            let ghost roots0 = roots@;
            if let Some(node) = nodes.get(&p) {
                if known_parent_pid(&node.process_info).is_none() {
                    insert_sorted(&mut roots, p);
                }
            }
            proof {
                assert forall|q: Pid| #[trigger]
                    roots@.contains(q) <==> exists|m: int|
                        0 <= m < j + 1 && known@[m] == q && nodes@.contains_key(q)
                            && known_parent(nodes@[q].process_info) is None by {
                    assert(roots@.contains(q) == roots@.to_set().contains(q));
                    assert(roots0.contains(q) == roots0.to_set().contains(q));
                    if q == p && nodes@.contains_key(q) && known_parent(nodes@[q].process_info) is None {
                        assert(known@[j as int] == q);
                    }
                }
            }
        }
        let tree = ProcessTree { roots, nodes };
        assert(known@.to_set() =~= tree_pids(s)) by {
            assert forall|p: Pid| known@.to_set().contains(p) == tree_pids(s).contains(p) by {
                assert(known@.contains(p) == known@.to_set().contains(p));
            }
        }
        proof {
            assert(tree@.nodes.dom() =~= tree_pids(s));
            assert forall|p: Pid| #[trigger] tree_pids(s).contains(p) implies {
                &&& tree@.nodes[p].outcome == settled_outcome(s, p)
                &&& increasing(tree@.nodes[p].children)
                &&& tree@.nodes[p].children.to_set() == children_in(s, p)
            } by {
                assert(tree@.nodes[p].outcome == n[p].process_info);
                assert(tree@.nodes[p].children == n[p].children@);
            }
            assert(tree@.roots.to_set() =~= roots_in(s)) by {
                assert forall|p: Pid| tree@.roots.to_set().contains(p) == roots_in(s).contains(p) by {
                    assert(tree@.roots.contains(p) == tree@.roots.to_set().contains(p));
                    if tree_pids(s).contains(p) && known_parent(settled_outcome(s, p)) is None {
                        assert(n.contains_key(p));
                        assert(known@.contains(p));
                        let m = choose|m: int| 0 <= m < known@.len() && known@[m] == p;
                    }
                }
            }
        }
        Ok((tree, known))
    }
    /// Report the contents of the process tree: one event per node, roots in
    /// increasing order, each followed depth-first by the subtrees of its
    /// children in increasing order.
    ///
    /// The traversal works on an explicit stack of subtrees to visit, and
    /// descends no deeper than the number of nodes.
    pub fn log(&self) -> (events: Vec<ProcessEvent>)
        ensures
            events_view(events@) == tree_events(self@),
    {
        let ghost nodes = self@.nodes;
        let ghost total = tree_events(self@);
        let depth = self.nodes.len();
        assert(self@.nodes.dom() =~= self.nodes@.dom());
        let mut stack: Vec<(Pid, Option<Pid>, usize)> = Vec::new();
        push_subtrees(&mut stack, &self.roots, None, depth, Ghost(nodes));
        assert(pending_events(nodes, Seq::<(Pid, Option<Pid>, usize)>::empty()) =~= Seq::empty());
        let mut events: Vec<ProcessEvent> = Vec::new();
        assert(events_view(events@) + pending_events(nodes, stack@) =~= total);
        while stack.len() > 0
            invariant
                nodes == self@.nodes,
                events_view(events@) + pending_events(nodes, stack@) == total,
            decreases total.len() - events@.len(), stack@.len(),
        {
            let ghost before = stack@;
            let ghost done = events_view(events@);
            let (pid, parent, d) = match stack.pop() {
                Some(frame) => frame,
                None => (0, None, 0),
            };
            assert(stack@ =~= before.drop_last());
            assert(before.last() == (pid, parent, d));
            match self.nodes.get(&pid) {
                None => {
                    assert(!nodes.contains_key(pid));
                },
                Some(node) => {
                    let event = ProcessEvent {
                        pid,
                        parent_pid: parent,
                        report: describe_outcome(&node.process_info),
                    };
                    events.push(event);
                    assert(events_view(events@) =~= done.push(event@));
                    if d > 0 {
                        push_subtrees(&mut stack, &node.children, Some(pid), d - 1, Ghost(nodes));
                    }
                    assert(nodes[pid].children == node.children@);
                    assert(events_view(events@) + pending_events(nodes, stack@) =~= done
                        + pending_events(nodes, before));
                },
            }
        }
        assert(pending_events(nodes, stack@) =~= Seq::empty());
        assert(events_view(events@) =~= total);
        events
    }

    /// Roots of the tree, in increasing order
    pub fn roots(&self) -> (r: &Vec<Pid>)
        ensures
            r@ == self@.roots,
    {
        &self.roots
    }

    /// Number of nodes of the tree
    pub fn len(&self) -> (r: usize)
        ensures
            r == self@.nodes.dom().len(),
    {
        assert(self@.nodes.dom() =~= self.nodes@.dom());
        self.nodes.len()
    }

    /// Children of a process, in increasing order, if it has a node
    pub fn children(&self, pid: Pid) -> (r: Option<&Vec<Pid>>)
        ensures
            r matches Some(c) ==> self@.nodes.contains_key(pid) && c@ == self@.nodes[pid].children,
            r is None ==> !self@.nodes.contains_key(pid),
    {
        match self.nodes.get(&pid) {
            Some(node) => Some(&node.children),
            None => None,
        }
    }

    /// Outcome held by the node of a process, if it has one
    pub fn outcome(&self, pid: Pid) -> (r: Option<&RecordOutcome>)
        ensures
            r matches Some(o) ==> self@.nodes.contains_key(pid) && *o == self@.nodes[pid].outcome,
            r is None ==> !self@.nodes.contains_key(pid),
    {
        match self.nodes.get(&pid) {
            Some(node) => Some(&node.process_info),
            None => None,
        }
    }

    /// The tree is the one that the batch `s` describes.
    pub open spec fn built_from(&self, s: Seq<(Pid, RecordOutcome)>) -> bool {
        &&& pids_distinct(s)
        &&& self@.nodes.dom() == tree_pids(s)
        &&& forall|p: Pid| #[trigger]
            tree_pids(s).contains(p) ==> {
                &&& self@.nodes[p].outcome == settled_outcome(s, p)
                &&& increasing(self@.nodes[p].children)
                &&& self@.nodes[p].children.to_set() == children_in(s, p)
            }
        &&& increasing(self@.roots)
        &&& self@.roots.to_set() == roots_in(s)
    }
}


/// Two batches with the same entries, each naming every process at most once,
/// describe the same nodes, outcomes, children and roots.
proof fn lemma_same_entries_same_tree(s1: Seq<(Pid, RecordOutcome)>, s2: Seq<(Pid, RecordOutcome)>)
    requires
        pids_distinct(s1),
        pids_distinct(s2),
        forall|x: (Pid, RecordOutcome)| s1.contains(x) <==> s2.contains(x),
    ensures
        tree_pids(s1) == tree_pids(s2),
        roots_in(s1) == roots_in(s2),
        forall|p: Pid| settled_outcome(s1, p) == settled_outcome(s2, p),
        forall|p: Pid| children_in(s1, p) == children_in(s2, p),
{
    assert forall|p: Pid| supplies(s1, p) == supplies(s2, p) by {
        if supplies(s1, p) {
            let i = choose|i: int| 0 <= i < s1.len() && s1[i].0 == p;
            assert(s1.contains(s1[i]));
        }
        if supplies(s2, p) {
            let i = choose|i: int| 0 <= i < s2.len() && s2[i].0 == p;
            assert(s2.contains(s2[i]));
        }
    }
    assert forall|p: Pid| names_as_parent(s1, p) == names_as_parent(s2, p) by {
        if names_as_parent(s1, p) {
            let i = choose|i: int| 0 <= i < s1.len() && known_parent(s1[i].1) == Some(p);
            assert(s1.contains(s1[i]));
        }
        if names_as_parent(s2, p) {
            let i = choose|i: int| 0 <= i < s2.len() && known_parent(s2[i].1) == Some(p);
            assert(s2.contains(s2[i]));
        }
    }
    assert(tree_pids(s1) =~= tree_pids(s2));
    assert forall|p: Pid| settled_outcome(s1, p) == settled_outcome(s2, p) by {
        if supplies(s1, p) {
            let i = choose|i: int| 0 <= i < s1.len() && s1[i].0 == p;
            let j = choose|j: int| 0 <= j < s2.len() && s2[j].0 == p;
            assert(s1.contains(s1[i]));
            let j2 = choose|j2: int| 0 <= j2 < s2.len() && s2[j2] == s1[i];
            assert(j2 == j);
        }
    }
    assert forall|p: Pid| children_in(s1, p) == children_in(s2, p) by {
        assert forall|c: Pid| children_in(s1, p).contains(c) implies children_in(s2, p).contains(c) by {
            let i = choose|i: int| 0 <= i < s1.len() && s1[i].0 == c && known_parent(s1[i].1) == Some(p);
            assert(s1.contains(s1[i]));
            let j = choose|j: int| 0 <= j < s2.len() && s2[j] == s1[i];
        }
        assert forall|c: Pid| children_in(s2, p).contains(c) implies children_in(s1, p).contains(c) by {
            let i = choose|i: int| 0 <= i < s2.len() && s2[i].0 == c && known_parent(s2[i].1) == Some(p);
            assert(s2.contains(s2[i]));
            let j = choose|j: int| 0 <= j < s1.len() && s1[j] == s2[i];
        }
        assert(children_in(s1, p) =~= children_in(s2, p));
    }
    assert(roots_in(s1) =~= roots_in(s2));
}

/// Order independence: batches that hold the same entries in any order build
/// identical trees (same roots, same children, same outcomes).
pub proof fn lemma_build_order_independent(
    s1: Seq<(Pid, RecordOutcome)>,
    s2: Seq<(Pid, RecordOutcome)>,
    t1: ProcessTree,
    t2: ProcessTree,
)
    requires
        s1.to_multiset() == s2.to_multiset(),
        t1.built_from(s1),
        t2.built_from(s2),
    ensures
        t1@ == t2@,
{
    assert forall|x: (Pid, RecordOutcome)| s1.contains(x) <==> s2.contains(x) by {
        to_multiset_contains(s1, x);
        to_multiset_contains(s2, x);
    }
    lemma_same_entries_same_tree(s1, s2);
    lemma_increasing_unique(t1@.roots, t2@.roots);
    assert forall|p: Pid| #[trigger] t1@.nodes.contains_key(p) implies t1@.nodes[p] == t2@.nodes[p] by {
        assert(tree_pids(s1).contains(p));
        lemma_increasing_unique(t1@.nodes[p].children, t2@.nodes[p].children);
    }
    assert(t1@.nodes =~= t2@.nodes);
}

/// No orphaned children: every node that is not a root is the child of
/// exactly one node, and a root is the child of none.
pub proof fn lemma_no_orphans(t: ProcessTree, s: Seq<(Pid, RecordOutcome)>)
    requires
        t.built_from(s),
    ensures
        forall|c: Pid|
            #![trigger t@.nodes.contains_key(c)]
            t@.nodes.contains_key(c) && !t@.roots.contains(c) ==> exists|p: Pid|
                {
                    &&& t@.nodes.contains_key(p)
                    &&& #[trigger] t@.nodes[p].children.contains(c)
                    &&& forall|q: Pid|
                        t@.nodes.contains_key(q) && #[trigger] t@.nodes[q].children.contains(c) ==> q
                            == p
                },
        forall|c: Pid, q: Pid|
            t@.roots.contains(c) && t@.nodes.contains_key(q) ==> !#[trigger] t@.nodes[q].children.contains(
                c,
            ),
{
    assert forall|c: Pid, q: Pid|
        t@.nodes.contains_key(q) && #[trigger] t@.nodes[q].children.contains(c) implies exists|i: int|
        0 <= i < s.len() && s[i].0 == c && known_parent(s[i].1) == Some(q) && settled_outcome(s, c)
            == s[i].1 by {
        assert(tree_pids(s).contains(q));
        assert(t@.nodes[q].children.to_set().contains(c));
        assert(children_in(s, q).contains(c));
        let i = choose|i: int| 0 <= i < s.len() && s[i].0 == c && known_parent(s[i].1) == Some(q);
        assert(supplies(s, c));
    }
    assert forall|c: Pid| #[trigger]
        t@.nodes.contains_key(c) && !t@.roots.contains(c) implies exists|p: Pid|
        {
            &&& t@.nodes.contains_key(p)
            &&& #[trigger] t@.nodes[p].children.contains(c)
            &&& forall|q: Pid|
                t@.nodes.contains_key(q) && #[trigger] t@.nodes[q].children.contains(c) ==> q == p
        } by {
        assert(tree_pids(s).contains(c));
        assert(!t@.roots.to_set().contains(c));
        assert(!roots_in(s).contains(c));
        let p = known_parent(settled_outcome(s, c))->Some_0;
        assert(supplies(s, c));
        let i = choose|i: int| 0 <= i < s.len() && s[i].0 == c;
        assert(names_as_parent(s, p));
        assert(tree_pids(s).contains(p));
        assert(children_in(s, p).contains(c));
        assert(t@.nodes[p].children.to_set().contains(c));
        assert(t@.nodes[p].children.contains(c));
    }
    assert forall|c: Pid, q: Pid|
        t@.roots.contains(c) && t@.nodes.contains_key(q) implies !#[trigger] t@.nodes[q].children.contains(c) by {
        if t@.nodes[q].children.contains(c) {
            assert(t@.roots.to_set().contains(c));
            assert(roots_in(s).contains(c));
        }
    }
}

/// Placeholder settlement: a node that a record names as its parent holds
/// the outcome supplied for it in the batch, or the placeholder
/// `NoSuchProcess` when none was supplied.
pub proof fn lemma_placeholder_settlement(t: ProcessTree, s: Seq<(Pid, RecordOutcome)>, p: Pid)
    requires
        t.built_from(s),
        names_as_parent(s, p),
    ensures
        t@.nodes.contains_key(p),
        !supplies(s, p) ==> t@.nodes[p].outcome == Err::<ProcessInfo, ProcessInfoError>(
            ProcessInfoError::NoSuchProcess,
        ),
        forall|i: int| 0 <= i < s.len() && s[i].0 == p ==> t@.nodes[p].outcome == s[i].1,
{
    assert(tree_pids(s).contains(p));
    assert forall|i: int| 0 <= i < s.len() && s[i].0 == p implies t@.nodes[p].outcome == s[i].1 by {
        let j = choose|j: int| 0 <= j < s.len() && s[j].0 == p;
        assert(i == j);
    }
}

} // verus!
