//! The shape of a built process tree, and why its report names every
//! process exactly once.

use crate::process::{known_parent, Pid, RecordOutcome};
use crate::report::{forest_events, subtree_events, tree_events, EventView};
use crate::sorted::increasing;
use crate::tree::{
    acyclic, children_in, names_as_parent, reaches_root, settled_outcome, supplies,
    tree_pids, ProcessTree, ProcessTreeView, TreeNodeView,
};
use vstd::prelude::*;

verus! {

/// The parent that the node of `c` names, if it has a node.
pub open spec fn parent_of(nodes: Map<Pid, TreeNodeView>, c: Pid) -> Option<Pid> {
    if nodes.contains_key(c) {
        known_parent(nodes[c].outcome)
    } else {
        None
    }
}

/// The ancestor `k` parent links above `p`, if the links go that far.
pub open spec fn ancestor(nodes: Map<Pid, TreeNodeView>, p: Pid, k: nat) -> Option<Pid>
    decreases k,
{
    if k == 0 {
        Some(p)
    } else {
        match parent_of(nodes, p) {
            Some(q) => ancestor(nodes, q, (k - 1) as nat),
            None => None,
        }
    }
}

/// Ancestors compose: `a + b` links above `p` is `b` links above the
/// ancestor `a` links above it.
proof fn lemma_ancestor_compose(nodes: Map<Pid, TreeNodeView>, p: Pid, a: nat, b: nat)
    ensures
        ancestor(nodes, p, a + b) == match ancestor(nodes, p, a) {
            Some(q) => ancestor(nodes, q, b),
            None => None,
        },
    decreases a,
{
    if a > 0 {
        if let Some(q) = parent_of(nodes, p) {
            lemma_ancestor_compose(nodes, q, (a - 1) as nat, b);
            assert((a + b - 1) as nat == ((a - 1) as nat + b) as nat);
        } else {
            assert(ancestor(nodes, p, a + b) == None::<Pid>);
        }
    }
}

/// Once the links stop, they stay stopped.
proof fn lemma_ancestor_none_stays(nodes: Map<Pid, TreeNodeView>, p: Pid, a: nat, b: nat)
    requires
        a <= b,
        ancestor(nodes, p, a) is None,
    ensures
        ancestor(nodes, p, b) is None,
{
    lemma_ancestor_compose(nodes, p, a, (b - a) as nat);
}

/// From `p`, parent links reach a node without a parent within `steps`.
pub open spec fn rooted_within(nodes: Map<Pid, TreeNodeView>, p: Pid, steps: nat) -> bool {
    exists|k: nat| k <= steps && #[trigger] ancestor(nodes, p, k) is Some && parent_of(
        nodes,
        ancestor(nodes, p, k)->Some_0,
    ) is None
}

/// A node from which links reach a root is not its own ancestor.
proof fn lemma_no_cycle(nodes: Map<Pid, TreeNodeView>, q: Pid, k: nat, steps: nat)
    requires
        k >= 1,
        rooted_within(nodes, q, steps),
    ensures
        ancestor(nodes, q, k) != Some(q),
{
    if ancestor(nodes, q, k) == Some(q) {
        // Then every ancestor of q exists, and each has a parent
        assert forall|j: nat| #[trigger] ancestor(nodes, q, j) is Some by {
            lemma_all_ancestors(nodes, q, k, j);
        }
        let j = choose|j: nat|
            j <= steps && #[trigger] ancestor(nodes, q, j) is Some && parent_of(
                nodes,
                ancestor(nodes, q, j)->Some_0,
            ) is None;
        lemma_ancestor_compose(nodes, q, j, 1);
        assert(ancestor(nodes, q, j + 1) is Some);
    }
}

/// Above a node that is its own ancestor, links never stop.
proof fn lemma_all_ancestors(nodes: Map<Pid, TreeNodeView>, q: Pid, k: nat, j: nat)
    requires
        k >= 1,
        ancestor(nodes, q, k) == Some(q),
    ensures
        ancestor(nodes, q, j) is Some,
    decreases j,
{
    if j >= k {
        lemma_all_ancestors(nodes, q, k, (j - k) as nat);
        lemma_ancestor_compose(nodes, q, k, (j - k) as nat);
        assert((k + (j - k) as nat) as nat == j);
    } else {
        if ancestor(nodes, q, j) is None {
            lemma_ancestor_none_stays(nodes, q, j, k);
        }
    }
}


/// How many events of a sequence are about process `p`.
pub open spec fn count_pid(e: Seq<EventView>, p: Pid) -> nat
    decreases e.len(),
{
    if e.len() == 0 {
        0
    } else {
        count_pid(e.drop_last(), p) + if e.last().pid == p {
            1nat
        } else {
            0nat
        }
    }
}

proof fn lemma_count_concat(a: Seq<EventView>, b: Seq<EventView>, p: Pid)
    ensures
        count_pid(a + b, p) == count_pid(a, p) + count_pid(b, p),
    decreases b.len(),
{
    if b.len() == 0 {
        assert(a + b =~= a);
    } else {
        assert((a + b).drop_last() =~= a + b.drop_last());
        lemma_count_concat(a, b.drop_last(), p);
    }
}

/// `q` is `p` or one of its ancestors at most `d` links above it.
pub open spec fn descends(nodes: Map<Pid, TreeNodeView>, p: Pid, q: Pid, d: nat) -> bool {
    exists|k: nat| k <= d && #[trigger] ancestor(nodes, p, k) == Some(q)
}

/// How many of `list` have `p` among their descendants within `d` levels.
pub open spec fn descended_count(nodes: Map<Pid, TreeNodeView>, list: Seq<Pid>, p: Pid, d: nat) -> nat
    decreases list.len(),
{
    if list.len() == 0 {
        0
    } else {
        descended_count(nodes, list.drop_last(), p, d) + if descends(nodes, p, list.last(), d) {
            1nat
        } else {
            0nat
        }
    }
}

/// The children of each node are exactly the nodes that name it as their
/// parent, each once; parents have nodes; parent links reach a root.
pub open spec fn shaped(nodes: Map<Pid, TreeNodeView>) -> bool {
    &&& forall|q: Pid, c: Pid|
        nodes.contains_key(q) ==> (#[trigger] nodes[q].children.contains(c) <==> parent_of(nodes, c)
            == Some(q))
    &&& forall|q: Pid| #[trigger] nodes.contains_key(q) ==> nodes[q].children.no_duplicates()
    &&& forall|c: Pid|
        #[trigger] parent_of(nodes, c) is Some ==> nodes.contains_key(parent_of(nodes, c)->Some_0)
    &&& forall|q: Pid| #[trigger] nodes.contains_key(q) ==> rooted_within(nodes, q, nodes.dom().len())
}

/// One link up from a child is its parent.
proof fn lemma_one_up(nodes: Map<Pid, TreeNodeView>, c: Pid)
    ensures
        ancestor(nodes, c, 1) == parent_of(nodes, c),
{
    if let Some(q) = parent_of(nodes, c) {
        assert(ancestor(nodes, q, 0) == Some(q));
    }
}

/// At most one of a list of distinct children of `q` is an ancestor of `p`.
proof fn lemma_one_child_on_path(nodes: Map<Pid, TreeNodeView>, q: Pid, p: Pid, c1: Pid, c2: Pid, d: nat)
    requires
        shaped(nodes),
        parent_of(nodes, c1) == Some(q),
        parent_of(nodes, c2) == Some(q),
        descends(nodes, p, c1, d),
        descends(nodes, p, c2, d),
    ensures
        c1 == c2,
{
    let k1 = choose|k: nat| k <= d && #[trigger] ancestor(nodes, p, k) == Some(c1);
    let k2 = choose|k: nat| k <= d && #[trigger] ancestor(nodes, p, k) == Some(c2);
    lemma_one_up(nodes, c1);
    lemma_one_up(nodes, c2);
    assert(nodes.contains_key(q));
    if k1 < k2 {
        let m = (k2 - k1) as nat;
        lemma_ancestor_compose(nodes, p, k1, m);
        assert(ancestor(nodes, c1, m) == Some(c2));
        lemma_ancestor_compose(nodes, c1, m, 1);
        lemma_ancestor_compose(nodes, c1, 1, m);
        assert((m + 1) as nat == (1 + m) as nat);
        assert(ancestor(nodes, q, m) == Some(q));
        lemma_no_cycle(nodes, q, m, nodes.dom().len());
    } else if k2 < k1 {
        let m = (k1 - k2) as nat;
        lemma_ancestor_compose(nodes, p, k2, m);
        assert(ancestor(nodes, c2, m) == Some(c1));
        lemma_ancestor_compose(nodes, c2, m, 1);
        lemma_ancestor_compose(nodes, c2, 1, m);
        assert((m + 1) as nat == (1 + m) as nat);
        assert(ancestor(nodes, q, m) == Some(q));
        lemma_no_cycle(nodes, q, m, nodes.dom().len());
    }
}

/// When no two of `list` are ancestors of `p`, the count is whether one is.
proof fn lemma_descended_count_at_most_one(nodes: Map<Pid, TreeNodeView>, list: Seq<Pid>, p: Pid, d: nat)
    requires
        forall|i: int, j: int|
            0 <= i < list.len() && 0 <= j < list.len() && i != j ==> !(descends(nodes, p, list[i], d)
                && descends(nodes, p, list[j], d)),
    ensures
        descended_count(nodes, list, p, d) == if exists|i: int|
            0 <= i < list.len() && descends(nodes, p, #[trigger] list[i], d) {
            1nat
        } else {
            0nat
        },
    decreases list.len(),
{
    if list.len() > 0 {
        let init = list.drop_last();
        lemma_descended_count_at_most_one(nodes, init, p, d);
        if exists|i: int| 0 <= i < init.len() && descends(nodes, p, #[trigger] init[i], d) {
            let i = choose|i: int| 0 <= i < init.len() && descends(nodes, p, #[trigger] init[i], d);
            assert(list[i] == init[i]);
            assert(!descends(nodes, p, list.last(), d));
        }
        if exists|i: int| 0 <= i < list.len() && descends(nodes, p, #[trigger] list[i], d) {
            let i = choose|i: int| 0 <= i < list.len() && descends(nodes, p, #[trigger] list[i], d);
            if i < list.len() - 1 {
                assert(init[i] == list[i]);
            }
        }
    }
}


/// The subtree of `q` names each process of which `q` is an ancestor within
/// `d` levels once, and no other.
proof fn lemma_subtree_count(nodes: Map<Pid, TreeNodeView>, q: Pid, par: Option<Pid>, d: nat, p: Pid)
    requires
        shaped(nodes),
        nodes.contains_key(q),
    ensures
        count_pid(subtree_events(nodes, q, par, d), p) == if descends(nodes, p, q, d) {
            1nat
        } else {
            0nat
        },
    decreases d, 0nat,
{
    let ev = seq![EventView { pid: q, parent_pid: par, report: crate::report::describe(nodes[q].outcome) }];
    let rest = if d == 0 {
        Seq::<EventView>::empty()
    } else {
        forest_events(nodes, nodes[q].children, Some(q), (d - 1) as nat)
    };
    assert(subtree_events(nodes, q, par, d) == ev + rest);
    lemma_count_concat(ev, rest, p);
    assert(ev.drop_last() =~= Seq::<EventView>::empty());
    assert(count_pid(ev.drop_last(), p) == 0);
    assert(ev.last().pid == q);
    assert(count_pid(ev, p) == if q == p {
        1nat
    } else {
        0nat
    });
    assert(ancestor(nodes, p, 0) == Some(p));
    if d == 0 {
        assert(rest =~= Seq::<EventView>::empty());
        assert(count_pid(rest, p) == 0);
        if descends(nodes, p, q, 0) {
            let k = choose|k: nat| k <= 0 && #[trigger] ancestor(nodes, p, k) == Some(q);
        }
    } else {
        let ch = nodes[q].children;
        let e = (d - 1) as nat;
        assert forall|i: int| 0 <= i < ch.len() implies nodes.contains_key(#[trigger] ch[i]) by {
            assert(ch.contains(ch[i]));
        }
        lemma_forest_count(nodes, ch, Some(q), e, p);
        assert forall|i: int, j: int|
            0 <= i < ch.len() && 0 <= j < ch.len() && i != j implies !(descends(nodes, p, ch[i], e)
                && descends(nodes, p, ch[j], e)) by {
            assert(ch.contains(ch[i]));
            assert(ch.contains(ch[j]));
            if descends(nodes, p, ch[i], e) && descends(nodes, p, ch[j], e) {
                lemma_one_child_on_path(nodes, q, p, ch[i], ch[j], e);
            }
        }
        lemma_descended_count_at_most_one(nodes, ch, p, e);
        let on_path = exists|i: int| 0 <= i < ch.len() && descends(nodes, p, #[trigger] ch[i], e);
        assert(count_pid(rest, p) == if on_path {
            1nat
        } else {
            0nat
        });
        if p == q {
            assert(descends(nodes, p, q, d));
            if on_path {
                let i = choose|i: int| 0 <= i < ch.len() && descends(nodes, p, #[trigger] ch[i], e);
                assert(ch.contains(ch[i]));
                let k = choose|k: nat| k <= e && #[trigger] ancestor(nodes, p, k) == Some(ch[i]);
                lemma_one_up(nodes, ch[i]);
                lemma_ancestor_compose(nodes, p, k, 1);
                lemma_no_cycle(nodes, q, k + 1, nodes.dom().len());
            }
        } else {
            if on_path {
                let i = choose|i: int| 0 <= i < ch.len() && descends(nodes, p, #[trigger] ch[i], e);
                assert(ch.contains(ch[i]));
                let k = choose|k: nat| k <= e && #[trigger] ancestor(nodes, p, k) == Some(ch[i]);
                lemma_one_up(nodes, ch[i]);
                lemma_ancestor_compose(nodes, p, k, 1);
                assert(ancestor(nodes, p, k + 1) == Some(q));
                assert(descends(nodes, p, q, d));
            }
            if descends(nodes, p, q, d) {
                let k = choose|k: nat| k <= d && #[trigger] ancestor(nodes, p, k) == Some(q);
                assert(k >= 1);
                let k0 = (k - 1) as nat;
                if ancestor(nodes, p, k0) is None {
                    lemma_ancestor_none_stays(nodes, p, k0, k);
                }
                let c = ancestor(nodes, p, k0)->Some_0;
                lemma_ancestor_compose(nodes, p, k0, 1);
                assert((k0 + 1) as nat == k);
                lemma_one_up(nodes, c);
                assert(parent_of(nodes, c) == Some(q));
                assert(ch.contains(c));
                let i = choose|i: int| 0 <= i < ch.len() && ch[i] == c;
                assert(descends(nodes, p, ch[i], e));
            }
        }
    }
}

/// The subtrees of `list` name each process once per element of `list` of
/// which it descends within `d` levels.
proof fn lemma_forest_count(nodes: Map<Pid, TreeNodeView>, list: Seq<Pid>, par: Option<Pid>, d: nat, p: Pid)
    requires
        shaped(nodes),
        forall|i: int| 0 <= i < list.len() ==> nodes.contains_key(#[trigger] list[i]),
    ensures
        count_pid(forest_events(nodes, list, par, d), p) == descended_count(nodes, list, p, d),
    decreases d, list.len() + 1,
{
    if list.len() > 0 {
        let init = list.drop_last();
        assert forall|i: int| 0 <= i < init.len() implies nodes.contains_key(#[trigger] init[i]) by {
            assert(init[i] == list[i]);
        }
        lemma_forest_count(nodes, init, par, d, p);
        lemma_subtree_count(nodes, list.last(), par, d, p);
        lemma_count_concat(
            forest_events(nodes, init, par, d),
            subtree_events(nodes, list.last(), par, d),
            p,
        );
    } else {
        assert(forest_events(nodes, list, par, d) =~= Seq::<EventView>::empty());
    }
}


/// The tree is shaped, and its roots are its nodes without a parent, each
/// once.
pub open spec fn rooted(v: ProcessTreeView) -> bool {
    &&& shaped(v.nodes)
    &&& v.roots.no_duplicates()
    &&& forall|r: Pid| #[trigger]
        v.roots.contains(r) <==> v.nodes.contains_key(r) && parent_of(v.nodes, r) is None
}

/// The report of a rooted tree names each of its nodes once, and nothing
/// else.
proof fn lemma_tree_count(v: ProcessTreeView, p: Pid)
    requires
        rooted(v),
    ensures
        count_pid(tree_events(v), p) == if v.nodes.contains_key(p) {
            1nat
        } else {
            0nat
        },
{
    let nodes = v.nodes;
    let n = nodes.dom().len();
    let roots = v.roots;
    assert forall|i: int| 0 <= i < roots.len() implies nodes.contains_key(#[trigger] roots[i]) by {
        assert(roots.contains(roots[i]));
    }
    lemma_forest_count(nodes, roots, None, n, p);
    assert forall|i: int, j: int|
        0 <= i < roots.len() && 0 <= j < roots.len() && i != j implies !(descends(nodes, p, roots[i], n)
            && descends(nodes, p, roots[j], n)) by {
        if descends(nodes, p, roots[i], n) && descends(nodes, p, roots[j], n) {
            assert(roots.contains(roots[i]));
            assert(roots.contains(roots[j]));
            let ki = choose|k: nat| k <= n && #[trigger] ancestor(nodes, p, k) == Some(roots[i]);
            let kj = choose|k: nat| k <= n && #[trigger] ancestor(nodes, p, k) == Some(roots[j]);
            lemma_one_up(nodes, roots[i]);
            lemma_one_up(nodes, roots[j]);
            lemma_ancestor_compose(nodes, p, ki, 1);
            lemma_ancestor_compose(nodes, p, kj, 1);
            if ki < kj {
                lemma_ancestor_none_stays(nodes, p, ki + 1, kj);
            } else if kj < ki {
                lemma_ancestor_none_stays(nodes, p, kj + 1, ki);
            }
        }
    }
    lemma_descended_count_at_most_one(nodes, roots, p, n);
    if nodes.contains_key(p) {
        let j = choose|j: nat| j <= n && #[trigger] ancestor(nodes, p, j) is Some && parent_of(
            nodes,
            ancestor(nodes, p, j)->Some_0,
        ) is None;
        let r = ancestor(nodes, p, j)->Some_0;
        assert(nodes.contains_key(r)) by {
            if j > 0 {
                let j0 = (j - 1) as nat;
                if ancestor(nodes, p, j0) is None {
                    lemma_ancestor_none_stays(nodes, p, j0, j);
                }
                let c = ancestor(nodes, p, j0)->Some_0;
                lemma_ancestor_compose(nodes, p, j0, 1);
                assert((j0 + 1) as nat == j);
                lemma_one_up(nodes, c);
                assert(parent_of(nodes, c) is Some);
            }
        }
        assert(roots.contains(r));
        let i = choose|i: int| 0 <= i < roots.len() && roots[i] == r;
        assert(descends(nodes, p, roots[i], n));
    } else {
        assert forall|i: int| 0 <= i < roots.len() implies !descends(nodes, p, #[trigger] roots[i], n) by {
            if descends(nodes, p, roots[i], n) {
                let k = choose|k: nat| k <= n && #[trigger] ancestor(nodes, p, k) == Some(roots[i]);
                if k == 0 {
                    assert(ancestor(nodes, p, 0) == Some(p));
                } else {
                    assert(parent_of(nodes, p) is None);
                }
            }
        }
    }
}


/// A strictly increasing sequence has no duplicates.
proof fn lemma_increasing_no_duplicates(v: Seq<Pid>)
    requires
        increasing(v),
    ensures
        v.no_duplicates(),
{
    assert forall|i: int, j: int| 0 <= i < v.len() && 0 <= j < v.len() && i != j implies v[i] != v[j] by {
        if i < j {
            assert(v[i] < v[j]);
        } else {
            assert(v[j] < v[i]);
        }
    }
}

/// In a built tree, the parent of a node is the one that its entry names.
proof fn lemma_built_parent(t: ProcessTree, s: Seq<(Pid, RecordOutcome)>, c: Pid)
    requires
        t.built_from(s),
    ensures
        parent_of(t@.nodes, c) is Some <==> exists|i: int|
            0 <= i < s.len() && s[i].0 == c && known_parent(s[i].1) is Some,
        forall|i: int|
            0 <= i < s.len() && s[i].0 == c ==> parent_of(t@.nodes, c) == known_parent(s[i].1),
        parent_of(t@.nodes, c) matches Some(q) ==> names_as_parent(s, q),
{
    if t@.nodes.contains_key(c) {
        assert(tree_pids(s).contains(c));
        if supplies(s, c) {
            let j = choose|j: int| 0 <= j < s.len() && s[j].0 == c;
            assert forall|i: int| 0 <= i < s.len() && s[i].0 == c implies i == j by {}
            assert(parent_of(t@.nodes, c) == known_parent(s[j].1));
        }
    } else {
        assert(!tree_pids(s).contains(c));
        assert forall|i: int| 0 <= i < s.len() && s[i].0 == c implies false by {
            assert(supplies(s, c));
        }
    }
}

/// Parent links of a built tree follow those of its batch.
proof fn lemma_built_rooted_within(t: ProcessTree, s: Seq<(Pid, RecordOutcome)>, p: Pid, steps: nat)
    requires
        t.built_from(s),
        tree_pids(s).contains(p),
        reaches_root(s, p, steps),
    ensures
        rooted_within(t@.nodes, p, steps),
    decreases steps,
{
    let nodes = t@.nodes;
    assert(parent_of(nodes, p) == known_parent(settled_outcome(s, p)));
    match known_parent(settled_outcome(s, p)) {
        None => {
            assert(ancestor(nodes, p, 0) == Some(p));
        },
        Some(q) => {
            lemma_built_parent(t, s, p);
            assert(tree_pids(s).contains(q));
            lemma_built_rooted_within(t, s, q, (steps - 1) as nat);
            let k = choose|k: nat| k <= (steps - 1) as nat && #[trigger] ancestor(nodes, q, k) is Some
                && parent_of(nodes, ancestor(nodes, q, k)->Some_0) is None;
            assert(ancestor(nodes, p, k + 1) == ancestor(nodes, q, k));
        },
    }
}

/// A built tree without parent loops is rooted.
proof fn lemma_built_tree_rooted(t: ProcessTree, s: Seq<(Pid, RecordOutcome)>)
    requires
        t.built_from(s),
        acyclic(s),
    ensures
        rooted(t@),
{
    let nodes = t@.nodes;
    assert forall|q: Pid, c: Pid| nodes.contains_key(q) implies (#[trigger] nodes[q].children.contains(c)
        <==> parent_of(nodes, c) == Some(q)) by {
        assert(tree_pids(s).contains(q));
        assert(nodes[q].children.contains(c) == nodes[q].children.to_set().contains(c));
        lemma_built_parent(t, s, c);
        if children_in(s, q).contains(c) {
            let i = choose|i: int| 0 <= i < s.len() && s[i].0 == c && known_parent(s[i].1) == Some(q);
        }
        if parent_of(nodes, c) == Some(q) {
            let i = choose|i: int| 0 <= i < s.len() && s[i].0 == c && known_parent(s[i].1) is Some;
            assert(children_in(s, q).contains(c));
        }
    }
    assert forall|q: Pid| #[trigger] nodes.contains_key(q) implies nodes[q].children.no_duplicates() by {
        assert(tree_pids(s).contains(q));
        lemma_increasing_no_duplicates(nodes[q].children);
    }
    assert forall|c: Pid| #[trigger] parent_of(nodes, c) is Some implies nodes.contains_key(
        parent_of(nodes, c)->Some_0,
    ) by {
        lemma_built_parent(t, s, c);
    }
    assert forall|q: Pid| #[trigger] nodes.contains_key(q) implies rooted_within(nodes, q, nodes.dom().len()) by {
        assert(tree_pids(s).contains(q));
        lemma_built_rooted_within(t, s, q, tree_pids(s).len());
    }
    lemma_increasing_no_duplicates(t@.roots);
    assert forall|r: Pid| #[trigger] t@.roots.contains(r) <==> nodes.contains_key(r) && parent_of(nodes, r) is None by {
        assert(t@.roots.contains(r) == t@.roots.to_set().contains(r));
    }
}

/// One event per node: the report of a built tree whose parent links do not
/// loop names each of its processes exactly once, and no other process.
pub proof fn lemma_report_names_each_node_once(t: ProcessTree, s: Seq<(Pid, RecordOutcome)>)
    requires
        t.built_from(s),
        acyclic(s),
    ensures
        forall|p: Pid|
            #[trigger] count_pid(tree_events(t@), p) == if t@.nodes.contains_key(p) {
                1nat
            } else {
                0nat
            },
{
    lemma_built_tree_rooted(t, s);
    assert forall|p: Pid| #[trigger] count_pid(tree_events(t@), p) == if t@.nodes.contains_key(p) {
        1nat
    } else {
        0nat
    } by {
        lemma_tree_count(t@, p);
    }
}

} // verus!
