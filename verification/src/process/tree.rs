//! Parent/child process trees built from a flat process list.
use vstd::prelude::*;
use std::collections::{HashMap, HashSet};

use super::{ProcessInfo, ProcessView};
use super::info::{views, lemma_pviews_views};
use crate::tui::app::{SortColumn, order_of, sort_precedes};
use crate::seqs::{groups_by, lemma_filter_step, lemma_groups_step};

verus! {

broadcast use vstd::std_specs::hash::group_hash_axioms;

/// Builds parent-child process trees from flat process lists.
pub struct TreeBuilder;

// ─── Stable insertion sort ───────────────────────────────────────────

/// `x` inserted into `t` just after the last element that `x` does not
/// belong before (so among equals `x` goes last).
pub open spec fn insert_ordered(
    t: Seq<ProcessView>,
    x: ProcessView,
    before: spec_fn(ProcessView, ProcessView) -> bool,
) -> Seq<ProcessView>
    decreases t.len(),
{
    if t.len() == 0 {
        seq![x]
    } else if before(x, t.last()) {
        insert_ordered(t.drop_last(), x, before).push(t.last())
    } else {
        t.push(x)
    }
}

/// The stable sort of `s` by the strict order `before`: elements are taken
/// in order and each is inserted after everything it does not precede.
pub open spec fn sort_ordered(
    s: Seq<ProcessView>,
    before: spec_fn(ProcessView, ProcessView) -> bool,
) -> Seq<ProcessView>
    decreases s.len(),
{
    if s.len() == 0 {
        s
    } else {
        insert_ordered(sort_ordered(s.drop_last(), before), s.last(), before)
    }
}

/// Insertion adds one element; sorting keeps the length.
pub proof fn lemma_sort_len(s: Seq<ProcessView>, before: spec_fn(ProcessView, ProcessView) -> bool)
    ensures
        sort_ordered(s, before).len() == s.len(),
    decreases s.len(),
{
    if s.len() > 0 {
        lemma_sort_len(s.drop_last(), before);
        lemma_insert_len(sort_ordered(s.drop_last(), before), s.last(), before);
    }
}

proof fn lemma_insert_len(t: Seq<ProcessView>, x: ProcessView, before: spec_fn(ProcessView, ProcessView) -> bool)
    ensures
        insert_ordered(t, x, before).len() == t.len() + 1,
    decreases t.len(),
{
    if t.len() > 0 {
        lemma_insert_len(t.drop_last(), x, before);
    }
}

/// Inserting at the position found by scanning back from the end.
proof fn lemma_insert_at(
    t: Seq<ProcessView>,
    x: ProcessView,
    before: spec_fn(ProcessView, ProcessView) -> bool,
    k: int,
)
    requires
        0 <= k <= t.len(),
        forall|j: int| k <= j < t.len() ==> before(x, #[trigger] t[j]),
        k == 0 || !before(x, t[k - 1]),
    ensures
        insert_ordered(t, x, before) == t.take(k).push(x) + t.skip(k),
    decreases t.len(),
{
    if t.len() == 0 {
        assert(t.take(k).push(x) + t.skip(k) =~= seq![x]);
    } else if k == t.len() {
        assert(t.take(k).push(x) + t.skip(k) =~= t.push(x));
    } else {
        let d = t.drop_last();
        assert(before(x, t[t.len() - 1]));
        assert forall|j: int| k <= j < d.len() implies before(x, #[trigger] d[j]) by {
            assert(d[j] == t[j]);
        }
        lemma_insert_at(d, x, before, k);
        assert((d.take(k).push(x) + d.skip(k)).push(t.last()) =~= t.take(k).push(x) + t.skip(k));
    }
}

/// One level of processes sorted stably by a column.
fn sort_level(v: Vec<ProcessInfo>, col: SortColumn, ascending: bool) -> (r: Vec<ProcessInfo>)
    ensures
        views(r@) == sort_ordered(views(v@), order_of(col, ascending)),
{
    let ghost s = views(v@);
    let ghost before = order_of(col, ascending);
    let mut rest = v;
    let mut out: Vec<ProcessInfo> = Vec::new();
    assert(s.take(0) =~= Seq::<ProcessView>::empty());
    assert(views(out@) =~= Seq::<ProcessView>::empty());
    assert(s.skip(0) =~= s);
    while rest.len() > 0
        invariant
            rest.len() <= s.len(),
            views(rest@) == s.skip(s.len() - rest.len()),
            views(out@) == sort_ordered(s.take(s.len() - rest.len()), before),
            before == order_of(col, ascending),
        decreases rest.len(),
    {
        let ghost done = s.len() - rest.len();
        let ghost prev = out@;
        let ghost before_rest = rest@;
        let x = rest.remove(0);
        assert(x@ == views(before_rest)[0]);
        assert(views(before_rest)[0] == s[done]);
        let mut k = out.len();
        while k > 0 && sort_precedes(&x, &out[k - 1], col, ascending)
            invariant
                k <= out.len(),
                out@ == prev,
                before == order_of(col, ascending),
                forall|j: int| k <= j < out.len() ==> #[trigger] before(x@, views(out@)[j]),
            decreases k,
        {
            k -= 1;
        }
        proof {
            lemma_insert_at(views(out@), x@, before, k as int);
        }
        out.insert(k, x);
        proof {
            assert(views(out@) =~= views(prev).take(k as int).push(x@) + views(prev).skip(k as int));
            assert(s.take(done + 1).drop_last() =~= s.take(done));
            assert(views(rest@) =~= views(before_rest).skip(1));
            assert(views(rest@) =~= s.skip(done + 1));
        }
    }
    assert(s.take(s.len() as int) =~= s);
    out
}

// ─── Building the trees ──────────────────────────────────────────────

/// Some process in `s` has the PID `pid`.
pub open spec fn pid_listed(s: Seq<ProcessView>, pid: u32) -> bool {
    exists|i: int| 0 <= i < s.len() && #[trigger] s[i].pid == pid
}

/// A process whose parent is not in `all` starts a tree.
pub open spec fn is_root_of(all: Seq<ProcessView>) -> spec_fn(ProcessView) -> bool {
    |p: ProcessView| !pid_listed(all, p.ppid)
}

/// A process whose parent is in `all` hangs below that parent.
pub open spec fn is_child_of(all: Seq<ProcessView>) -> spec_fn(ProcessView) -> bool {
    |p: ProcessView| pid_listed(all, p.ppid)
}

/// The parent PID of a process, as a grouping key.
pub open spec fn ppid_key() -> spec_fn(ProcessView) -> u32 {
    |p: ProcessView| p.ppid
}

/// The children of each parent PID, in their order in `children`; a PID
/// that no child names has no entry.
pub open spec fn child_groups(children: Seq<ProcessView>) -> Map<u32, Seq<ProcessView>> {
    groups_by(children, ppid_key())
}

/// `n` with its children replaced by `c`.
pub open spec fn with_children(n: ProcessView, c: Seq<ProcessView>) -> ProcessView {
    ProcessView { children: c, ..n }
}

/// `n` given the group of children waiting under its PID, if any (each group
/// is handed out once), each child in turn given its own group; `rem` is
/// what is still waiting. `fuel` bounds the depth.
pub open spec fn attach_node(
    n: ProcessView,
    rem: Map<u32, Seq<ProcessView>>,
    fuel: nat,
) -> (ProcessView, Map<u32, Seq<ProcessView>>)
    decreases fuel, 0int,
{
    if fuel > 0 && rem.contains_key(n.pid) {
        let r = attach_seq(rem[n.pid], rem.remove(n.pid), (fuel - 1) as nat);
        (with_children(n, r.0), r.1)
    } else {
        (n, rem)
    }
}

/// Each process of `s` in turn given its children, as `attach_node` does.
pub open spec fn attach_seq(
    s: Seq<ProcessView>,
    rem: Map<u32, Seq<ProcessView>>,
    fuel: nat,
) -> (Seq<ProcessView>, Map<u32, Seq<ProcessView>>)
    decreases fuel, s.len() + 1,
{
    if s.len() == 0 {
        (Seq::empty(), rem)
    } else {
        let a = attach_seq(s.drop_last(), rem, fuel);
        let b = attach_node(s.last(), a.1, fuel);
        (a.0.push(b.0), b.1)
    }
}

/// The processes of `flat` ordered by PID (stably).
pub open spec fn pid_sorted(flat: Seq<ProcessView>) -> Seq<ProcessView> {
    sort_ordered(flat, order_of(SortColumn::Pid, true))
}

/// The trees built from `flat`: its processes sorted by PID; those whose
/// parent PID is absent are the roots, in that order; every other process
/// hangs below the first process (depth first) that has its parent PID,
/// children in PID order.
pub open spec fn forest_of(flat: Seq<ProcessView>) -> Seq<ProcessView> {
    let sorted = pid_sorted(flat);
    let roots = sorted.filter(is_root_of(flat));
    let children = sorted.filter(is_child_of(flat));
    attach_seq(roots, child_groups(children), flat.len()).0
}

/// The waiting groups of children, as values.
pub open spec fn group_views(m: Map<u32, Vec<ProcessInfo>>) -> Map<u32, Seq<ProcessView>> {
    m.map_values(|v: Vec<ProcessInfo>| views(v@))
}

/// Attach to `node` the children waiting under its PID, recursively.
fn attach_children(
    node: ProcessInfo,
    children_map: &mut HashMap<u32, Vec<ProcessInfo>>,
    Ghost(fuel): Ghost<nat>,
) -> (r: ProcessInfo)
    requires
        old(children_map)@.len() <= fuel,
    ensures
        (r@, group_views(final(children_map)@)) == attach_node(node@, group_views(old(children_map)@), fuel),
        final(children_map)@.len() <= old(children_map)@.len(),
    decreases fuel,
{
    let ghost m0 = group_views(children_map@);
    let mut node = node;
    match children_map.remove(&node.pid) {
        Some(children) => {
            assert(m0.contains_key(node.pid));
            assert(group_views(children_map@) =~= m0.remove(node.pid));
            let ghost kids = views(children@);
            let ghost start = group_views(children_map@);
            let ghost f1 = (fuel - 1) as nat;
            let ghost start_len = children_map@.len();
            assert(start_len < old(children_map)@.len());
            let mut rest = children;
            let mut out: Vec<ProcessInfo> = Vec::new();
            assert(kids.take(0) =~= Seq::<ProcessView>::empty());
            assert(views(out@) =~= Seq::<ProcessView>::empty());
            assert(kids.skip(0) =~= kids);
            while rest.len() > 0
                invariant
                    rest.len() <= kids.len(),
                    views(rest@) == kids.skip(kids.len() - rest.len()),
                    (views(out@), group_views(children_map@)) == attach_seq(
                        kids.take(kids.len() - rest.len()),
                        start,
                        f1,
                    ),
                    children_map@.len() <= start_len,
                    start_len <= f1,
                    f1 == fuel - 1,
                decreases rest.len(),
            {
                let ghost done = kids.len() - rest.len();
                let ghost before_rest = rest@;
                let ghost prev = out@;
                let c = rest.remove(0);
                assert(c@ == views(before_rest)[0]);
                let a = attach_children(c, children_map, Ghost(f1));
                out.push(a);
                proof {
                    assert(kids.take(done + 1).drop_last() =~= kids.take(done));
                    assert(kids.take(done + 1).last() == kids[done]);
                    assert(views(out@) =~= views(prev).push(a@));
                    assert(views(rest@) =~= views(before_rest).skip(1));
                    assert(views(rest@) =~= kids.skip(done + 1));
                }
            }
            assert(kids.take(kids.len() as int) =~= kids);
            node.children = out;
            proof {
                lemma_pviews_views(node.children@);
            }
            node
        },
        None => node,
    }
}

impl TreeBuilder {
    /// Build process trees from a flat list of processes.
    ///
    /// The processes are sorted by PID (stably); those whose parent PID is
    /// not in the list become the roots, in that order, and every other
    /// process is attached below its parent, children in PID order. Each
    /// parent PID's children are attached once, to the first process met
    /// depth first that has that PID; processes that no root reaches are
    /// left out.
    pub fn build(flat: Vec<ProcessInfo>) -> (r: Vec<ProcessInfo>)
        ensures
            views(r@) == forest_of(views(flat@)),
    {
        let ghost f = views(flat@);
        if flat.len() == 0 {
            assert(pid_sorted(f) =~= f);
            reveal(Seq::filter);
            assert(forest_of(f) =~= Seq::<ProcessView>::empty());
            return Vec::new();
        }
        // The PIDs present in the list.
        let mut pid_set: HashSet<u32> = HashSet::new();
        let mut i: usize = 0;
        while i < flat.len()
            invariant
                i <= flat.len(),
                f == views(flat@),
                forall|p: u32| #[trigger] pid_set@.contains(p) <==> pid_listed(f.take(i as int), p),
            decreases flat.len() - i,
        {
            pid_set.insert(flat[i].pid);
            proof {
                assert forall|p: u32| #[trigger] pid_set@.contains(p) <==> pid_listed(f.take(i + 1), p) by {
                    if pid_listed(f.take(i + 1), p) && p != flat@[i as int].pid {
                        let j = choose|j: int| 0 <= j < f.take(i + 1).len() && #[trigger] f.take(i + 1)[j].pid == p;
                        assert(f.take(i as int)[j] == f.take(i + 1)[j]);
                    }
                    if pid_listed(f.take(i as int), p) {
                        let j = choose|j: int| 0 <= j < f.take(i as int).len() && #[trigger] f.take(i as int)[j].pid == p;
                        assert(f.take(i as int)[j] == f.take(i + 1)[j]);
                    }
                    if p == flat@[i as int].pid {
                        assert(f.take(i + 1)[i as int].pid == p);
                    }
                }
            }
            i += 1;
        }
        assert(f.take(flat.len() as int) =~= f);
        // Sort by PID for a deterministic order.
        let mut sorted = sort_level(flat, SortColumn::Pid, true);
        let ghost st = views(sorted@);
        // Split into roots and children.
        let mut roots: Vec<ProcessInfo> = Vec::new();
        let mut children: Vec<ProcessInfo> = Vec::new();
        reveal(Seq::filter);
        assert(st.take(0) =~= Seq::<ProcessView>::empty());
        assert(views(roots@) =~= Seq::<ProcessView>::empty());
        assert(views(children@) =~= Seq::<ProcessView>::empty());
        assert(st.skip(0) =~= st);
        while sorted.len() > 0
            invariant
                sorted.len() <= st.len(),
                views(sorted@) == st.skip(st.len() - sorted.len()),
                views(roots@) == st.take(st.len() - sorted.len()).filter(is_root_of(f)),
                views(children@) == st.take(st.len() - sorted.len()).filter(is_child_of(f)),
                forall|p: u32| #[trigger] pid_set@.contains(p) <==> pid_listed(f, p),
            decreases sorted.len(),
        {
            let ghost done = st.len() - sorted.len();
            let ghost before = sorted@;
            let ghost r0 = roots@;
            let ghost c0 = children@;
            let p = sorted.remove(0);
            assert(p@ == views(before)[0]);
            assert(p@ == st[done]);
            proof {
                lemma_filter_step(st, is_root_of(f), done);
                lemma_filter_step(st, is_child_of(f), done);
            }
            if pid_set.contains(&p.ppid) {
                children.push(p);
                assert(views(children@) =~= views(c0).push(st[done]));
            } else {
                roots.push(p);
                assert(views(roots@) =~= views(r0).push(st[done]));
            }
            assert(views(sorted@) =~= views(before).skip(1));
            assert(views(sorted@) =~= st.skip(done + 1));
        }
        assert(st.take(st.len() as int) =~= st);
        proof {
            lemma_sort_len(f, order_of(SortColumn::Pid, true));
            st.lemma_filter_len(is_child_of(f));
        }
        // Group the children by parent PID.
        let ghost ch = views(children@);
        let mut children_map: HashMap<u32, Vec<ProcessInfo>> = HashMap::new();
        assert(ch.take(0) =~= Seq::<ProcessView>::empty());
        assert(group_views(children_map@) =~= child_groups(ch.take(0)));
        assert(ch.skip(0) =~= ch);
        while children.len() > 0
            invariant
                children.len() <= ch.len(),
                views(children@) == ch.skip(ch.len() - children.len()),
                group_views(children_map@) == child_groups(ch.take(ch.len() - children.len())),
                children_map@.len() <= ch.len() - children.len(),
            decreases children.len(),
        {
            let ghost done = ch.len() - children.len();
            let ghost before = children@;
            let ghost g = group_views(children_map@);
            let c = children.remove(0);
            assert(c@ == views(before)[0]);
            assert(c@ == ch[done]);
            let ppid = c.ppid;
            proof {
                lemma_groups_step(ch, ppid_key(), done);
            }
            match children_map.remove(&ppid) {
                Some(mut group) => {
                    let ghost g0 = group@;
                    group.push(c);
                    children_map.insert(ppid, group);
                    assert(views(group@) =~= views(g0).push(c@));
                },
                None => {
                    let mut group: Vec<ProcessInfo> = Vec::new();
                    group.push(c);
                    children_map.insert(ppid, group);
                    assert(views(group@) =~= seq![c@]);
                },
            }
            assert(group_views(children_map@) =~= child_groups(ch.take(done + 1)));
            assert(views(children@) =~= views(before).skip(1));
            assert(views(children@) =~= ch.skip(done + 1));
        }
        assert(ch.take(ch.len() as int) =~= ch);
        // Attach children to each root, recursively.
        let ghost rs = views(roots@);
        let ghost groups = child_groups(ch);
        let ghost fuel = f.len();
        let mut trees: Vec<ProcessInfo> = Vec::new();
        assert(rs.take(0) =~= Seq::<ProcessView>::empty());
        assert(views(trees@) =~= Seq::<ProcessView>::empty());
        assert(rs.skip(0) =~= rs);
        while roots.len() > 0
            invariant
                roots.len() <= rs.len(),
                views(roots@) == rs.skip(rs.len() - roots.len()),
                (views(trees@), group_views(children_map@)) == attach_seq(
                    rs.take(rs.len() - roots.len()),
                    groups,
                    fuel,
                ),
                children_map@.len() <= fuel,
            decreases roots.len(),
        {
            let ghost done = rs.len() - roots.len();
            let ghost before = roots@;
            let ghost prev = trees@;
            let root = roots.remove(0);
            assert(root@ == views(before)[0]);
            let t = attach_children(root, &mut children_map, Ghost(fuel));
            trees.push(t);
            proof {
                assert(rs.take(done + 1).drop_last() =~= rs.take(done));
                assert(rs.take(done + 1).last() == rs[done]);
                assert(views(trees@) =~= views(prev).push(t@));
                assert(views(roots@) =~= views(before).skip(1));
                assert(views(roots@) =~= rs.skip(done + 1));
            }
        }
        assert(rs.take(rs.len() as int) =~= rs);
        trees
    }
}

// ─── Walking the trees ───────────────────────────────────────────────

/// The processes of a tree in depth-first order, the root first.
pub open spec fn preorder_node(n: ProcessView) -> Seq<ProcessView>
    decreases n,
{
    seq![n] + preorder(n.children)
}

/// The processes of a forest in depth-first order, tree after tree.
pub open spec fn preorder(s: Seq<ProcessView>) -> Seq<ProcessView>
    decreases s,
{
    if s.len() == 0 {
        Seq::empty()
    } else {
        preorder(s.drop_last()) + preorder_node(s.last())
    }
}

/// Each process of a tree, depth first, paired with its depth below the
/// root, the root being at depth `d`.
pub open spec fn flat_node(n: ProcessView, d: int) -> Seq<(ProcessView, int)>
    decreases n,
{
    seq![(n, d)] + flat_seq(n.children, d + 1)
}

/// Each process of a forest, depth first, with its depth; the roots are at
/// depth `d`.
pub open spec fn flat_seq(s: Seq<ProcessView>, d: int) -> Seq<(ProcessView, int)>
    decreases s,
{
    if s.len() == 0 {
        Seq::empty()
    } else {
        flat_seq(s.drop_last(), d) + flat_node(s.last(), d)
    }
}

/// The number of processes in a tree.
pub open spec fn tree_size(n: ProcessView) -> nat {
    preorder_node(n).len()
}

/// The number of processes in a forest.
pub open spec fn forest_size(s: Seq<ProcessView>) -> nat {
    preorder(s).len()
}

/// The PIDs of a sequence of processes.
pub open spec fn pids_of(s: Seq<ProcessView>) -> Seq<u32> {
    s.map_values(|p: ProcessView| p.pid)
}

/// A flattened list as values: each process by its value, each depth as a
/// number.
pub open spec fn depth_views(s: Seq<(&ProcessInfo, usize)>) -> Seq<(ProcessView, int)> {
    s.map_values(|e: (&ProcessInfo, usize)| (e.0@, e.1 as int))
}

/// Depth-first order of a concatenation.
pub proof fn lemma_preorder_append(a: Seq<ProcessView>, b: Seq<ProcessView>)
    ensures
        preorder(a + b) == preorder(a) + preorder(b),
    decreases b.len(),
{
    if b.len() == 0 {
        assert(a + b =~= a);
        assert(preorder(a) + preorder(b) =~= preorder(a));
    } else {
        lemma_preorder_append(a, b.drop_last());
        assert((a + b).drop_last() =~= a + b.drop_last());
        assert((a + b).last() == b.last());
        assert(preorder(a + b) =~= preorder(a) + preorder(b));
    }
}

/// No tree of a forest is larger than the forest.
pub proof fn lemma_tree_within_forest(s: Seq<ProcessView>, i: int)
    requires
        0 <= i < s.len(),
    ensures
        1 <= tree_size(s[i]) <= forest_size(s),
    decreases s.len(),
{
    if i < s.len() - 1 {
        lemma_tree_within_forest(s.drop_last(), i);
        assert(s.drop_last()[i] == s[i]);
    }
}

/// Append the rows of a tree, depth first, the root at `depth`; the rows
/// already there include the root's ancestors, one per level.
fn flatten_node<'a>(node: &'a ProcessInfo, depth: usize, result: &mut Vec<(&'a ProcessInfo, usize)>)
    requires
        old(result)@.len() >= depth,
    ensures
        depth_views(final(result)@) == depth_views(old(result)@) + flat_node(node@, depth as int),
        final(result)@.len() >= old(result)@.len(),
    decreases node,
{
    let ghost start = depth_views(result@);
    result.push((node, depth));
    let ghost kids = views(node.children@);
    proof {
        lemma_pviews_views(node.children@);
        assert(depth_views(result@) =~= start + seq![(node@, depth as int)]);
    }
    assert(result.len() >= depth + 1);
    let mut i: usize = 0;
    assert(kids.take(0) =~= Seq::<ProcessView>::empty());
    while i < node.children.len()
        invariant
            i <= node.children.len(),
            kids == views(node.children@),
            kids == node@.children,
            result.len() >= depth + 1,
            result@.len() >= start.len() + 1,
            depth_views(result@) == start + seq![(node@, depth as int)] + flat_seq(kids.take(i as int), depth + 1),
        decreases node.children.len() - i,
    {
        assert(decreases_to!(node => node.children@[i as int]));
        proof {
            assert(kids[i as int] == node.children@[i as int]@);
        }
        flatten_node(&node.children[i], depth + 1, result);
        proof {
            assert(kids.take(i + 1).drop_last() =~= kids.take(i as int));
            assert(kids.take(i + 1).last() == kids[i as int]);
        }
        i += 1;
    }
    assert(kids.take(kids.len() as int) =~= kids);
}

/// Whether some process of the forest has the PID.
pub open spec fn in_forest(s: Seq<ProcessView>, pid: u32) -> bool {
    exists|k: int| 0 <= k < preorder(s).len() && #[trigger] preorder(s)[k].pid == pid
}

/// `p` is the first process with the PID in depth-first order.
pub open spec fn first_found(s: Seq<ProcessView>, pid: u32, p: ProcessView) -> bool {
    exists|k: int|
        0 <= k < preorder(s).len() && #[trigger] preorder(s)[k] == p && p.pid == pid && forall|j: int|
            0 <= j < k ==> #[trigger] preorder(s)[j].pid != pid
}

pub(crate) fn find_in<'a>(trees: &'a Vec<ProcessInfo>, pid: u32) -> (r: Option<&'a ProcessInfo>)
    ensures
        match r {
            Some(p) => first_found(views(trees@), pid, p@),
            None => !in_forest(views(trees@), pid),
        },
    decreases trees,
{
    let ghost s = views(trees@);
    let mut i: usize = 0;
    assert(s.take(0) =~= Seq::<ProcessView>::empty());
    while i < trees.len()
        invariant
            i <= trees.len(),
            s == views(trees@),
            forall|j: int| 0 <= j < preorder(s.take(i as int)).len() ==> #[trigger] preorder(s.take(i as int))[j].pid != pid,
        decreases trees.len() - i,
    {
        let tree = &trees[i];
        let ghost before = preorder(s.take(i as int));
        let ghost rest = s.skip(i + 1);
        proof {
            assert(s =~= s.take(i as int) + seq![tree@] + rest);
            lemma_preorder_append(s.take(i as int) + seq![tree@], rest);
            lemma_preorder_append(s.take(i as int), seq![tree@]);
            assert(preorder(seq![tree@]) =~= preorder_node(tree@)) by {
                assert(seq![tree@].drop_last() =~= Seq::<ProcessView>::empty());
                assert(preorder(Seq::<ProcessView>::empty()) =~= Seq::<ProcessView>::empty());
                assert(seq![tree@].last() == tree@);
            }
            lemma_pviews_views(tree.children@);
            assert(preorder(s) =~= before + (seq![tree@] + preorder(views(tree.children@))) + preorder(rest));
        }
        if tree.pid == pid {
            assert(preorder(s)[before.len() as int] == tree@);
            return Some(tree);
        }
        assert(decreases_to!(trees => trees@[i as int]));
        assert(decreases_to!(trees@[i as int] => trees@[i as int].children));
        let found = find_in(&tree.children, pid);
        match found {
            Some(p) => {
                let ghost inner = preorder(views(tree.children@));
                let ghost k = choose|k: int|
                    0 <= k < inner.len() && #[trigger] inner[k] == p@ && p@.pid == pid && forall|j: int|
                        0 <= j < k ==> #[trigger] inner[j].pid != pid;
                assert(preorder(s)[before.len() + 1 + k] == p@);
                assert forall|j: int| 0 <= j < before.len() + 1 + k implies #[trigger] preorder(s)[j].pid != pid by {
                    if j < before.len() {
                        assert(preorder(s)[j] == before[j]);
                    } else if j > before.len() {
                        assert(preorder(s)[j] == inner[j - before.len() - 1]);
                    }
                }
                return Some(p);
            },
            None => {
                proof {
                    let inner = preorder(views(tree.children@));
                    assert(s.take(i + 1) =~= s.take(i as int) + seq![tree@]);
                    assert(preorder(s.take(i + 1)) =~= before + (seq![tree@] + inner));
                    assert forall|j: int| 0 <= j < preorder(s.take(i + 1)).len() implies #[trigger] preorder(s.take(i + 1))[j].pid != pid by {
                        if j < before.len() {
                        } else if j > before.len() {
                            assert(preorder(s.take(i + 1))[j] == inner[j - before.len() - 1]);
                            if inner[j - before.len() - 1].pid == pid {
                                assert(in_forest(views(tree.children@), pid));
                            }
                        }
                    }
                }
            },
        }
        i += 1;
    }
    assert(s.take(s.len() as int) =~= s);
    None
}

impl TreeBuilder {
    /// Each process of the trees, depth first, paired with its depth (roots
    /// at depth 0).
    pub fn flatten_with_depth(trees: &Vec<ProcessInfo>) -> (r: Vec<(&ProcessInfo, usize)>)
        ensures
            depth_views(r@) == flat_seq(views(trees@), 0),
    {
        let ghost s = views(trees@);
        let mut result: Vec<(&ProcessInfo, usize)> = Vec::new();
        let mut i: usize = 0;
        assert(s.take(0) =~= Seq::<ProcessView>::empty());
        assert(depth_views(result@) =~= Seq::<(ProcessView, int)>::empty());
        while i < trees.len()
            invariant
                i <= trees.len(),
                s == views(trees@),
                depth_views(result@) == flat_seq(s.take(i as int), 0),
            decreases trees.len() - i,
        {
            flatten_node(&trees[i], 0, &mut result);
            proof {
                assert(s.take(i + 1).drop_last() =~= s.take(i as int));
                assert(s.take(i + 1).last() == s[i as int]);
            }
            i += 1;
        }
        assert(s.take(s.len() as int) =~= s);
        result
    }

    /// The first process with the PID, depth first, or `None` when no
    /// process of the trees has it.
    pub fn find_by_pid(trees: &Vec<ProcessInfo>, pid: u32) -> (r: Option<&ProcessInfo>)
        ensures
            match r {
                Some(p) => first_found(views(trees@), pid, p@),
                None => !in_forest(views(trees@), pid),
            },
    {
        find_in(trees, pid)
    }

    /// The PID of the process and of all its descendants, depth first.
    pub fn collect_pids(node: &ProcessInfo) -> (r: Vec<u32>)
        ensures
            r@ == pids_of(preorder_node(node@)),
        decreases node,
    {
        let mut pids: Vec<u32> = Vec::new();
        pids.push(node.pid);
        let ghost kids = views(node.children@);
        proof {
            lemma_pviews_views(node.children@);
        }
        let mut i: usize = 0;
        assert(kids.take(0) =~= Seq::<ProcessView>::empty());
        assert(pids@ =~= pids_of(seq![node@] + preorder(kids.take(0))));
        while i < node.children.len()
            invariant
                i <= node.children.len(),
                kids == views(node.children@),
                kids == node@.children,
                pids@ == pids_of(seq![node@] + preorder(kids.take(i as int))),
            decreases node.children.len() - i,
        {
            assert(decreases_to!(node => node.children@[i as int]));
            let sub = TreeBuilder::collect_pids(&node.children[i]);
            let ghost prev = pids@;
            let mut j: usize = 0;
            while j < sub.len()
                invariant
                    j <= sub.len(),
                    pids@ == prev + sub@.take(j as int),
                decreases sub.len() - j,
            {
                pids.push(sub[j]);
                assert(sub@.take(j + 1) =~= sub@.take(j as int).push(sub@[j as int]));
                j += 1;
            }
            proof {
                assert(sub@.take(sub.len() as int) =~= sub@);
                assert(kids.take(i + 1).drop_last() =~= kids.take(i as int));
                assert(kids.take(i + 1).last() == kids[i as int]);
                assert(kids[i as int] == node.children@[i as int]@);
                assert(pids@ =~= pids_of(seq![node@] + preorder(kids.take(i + 1))));
            }
            i += 1;
        }
        assert(kids.take(kids.len() as int) =~= kids);
        pids
    }
}

// ─── Sorting the trees ───────────────────────────────────────────────

/// Appending a tree adds its size.
pub proof fn lemma_push_size(a: Seq<ProcessView>, y: ProcessView)
    ensures
        forest_size(a.push(y)) == forest_size(a) + tree_size(y),
{
    assert(a.push(y).drop_last() =~= a);
}

pub proof fn lemma_insert_size(t: Seq<ProcessView>, x: ProcessView, before: spec_fn(ProcessView, ProcessView) -> bool)
    ensures
        forest_size(insert_ordered(t, x, before)) == forest_size(t) + tree_size(x),
    decreases t.len(),
{
    if t.len() == 0 {
        lemma_push_size(t, x);
        assert(t.push(x) =~= seq![x]);
    } else if before(x, t.last()) {
        lemma_insert_size(t.drop_last(), x, before);
        lemma_push_size(insert_ordered(t.drop_last(), x, before), t.last());
        lemma_push_size(t.drop_last(), t.last());
        assert(t.drop_last().push(t.last()) =~= t);
    } else {
        lemma_push_size(t, x);
    }
}

/// Sorting a level keeps the number of processes.
pub proof fn lemma_sort_size(s: Seq<ProcessView>, before: spec_fn(ProcessView, ProcessView) -> bool)
    ensures
        forest_size(sort_ordered(s, before)) == forest_size(s),
    decreases s.len(),
{
    if s.len() > 0 {
        lemma_sort_size(s.drop_last(), before);
        lemma_insert_size(sort_ordered(s.drop_last(), before), s.last(), before);
        lemma_push_size(s.drop_last(), s.last());
        assert(s.drop_last().push(s.last()) =~= s);
    }
}

/// A tree with every level of its children sorted by the column.
pub open spec fn sort_tree(n: ProcessView, col: SortColumn, ascending: bool) -> ProcessView
    decreases tree_size(n), 0int,
{
    with_children(n, sort_forest(n.children, col, ascending))
}

/// A forest sorted by the column at its top level first, then each tree in
/// the new order sorted below.
pub open spec fn sort_forest(s: Seq<ProcessView>, col: SortColumn, ascending: bool) -> Seq<ProcessView>
    decreases forest_size(s), 2int,
{
    proof {
        lemma_sort_size(s, order_of(col, ascending));
    }
    sort_each(sort_ordered(s, order_of(col, ascending)), col, ascending)
}

/// Every tree of the sequence sorted below its root, in place.
pub open spec fn sort_each(t: Seq<ProcessView>, col: SortColumn, ascending: bool) -> Seq<ProcessView>
    decreases forest_size(t), 1int,
{
    if t.len() == 0 {
        Seq::empty()
    } else {
        proof {
            lemma_push_size(t.drop_last(), t.last());
            assert(t.drop_last().push(t.last()) =~= t);
        }
        sort_each(t.drop_last(), col, ascending).push(sort_tree(t.last(), col, ascending))
    }
}

impl TreeBuilder {
    /// Sort the trees at each level: the roots by the column, then the
    /// children of every process, recursively. Each level is sorted stably,
    /// descending when `ascending` is false.
    pub fn sort_recursive(trees: &mut Vec<ProcessInfo>, col: SortColumn, ascending: bool)
        ensures
            views(final(trees)@) == sort_forest(views(old(trees)@), col, ascending),
        decreases forest_size(views(old(trees)@)),
    {
        let ghost s = views(trees@);
        let mut taken: Vec<ProcessInfo> = Vec::new();
        std::mem::swap(&mut taken, trees);
        let mut rest = sort_level(taken, col, ascending);
        let ghost st = views(rest@);
        proof {
            lemma_sort_size(s, order_of(col, ascending));
        }
        let mut out: Vec<ProcessInfo> = Vec::new();
        assert(st.take(0) =~= Seq::<ProcessView>::empty());
        assert(views(out@) =~= Seq::<ProcessView>::empty());
        assert(st.skip(0) =~= st);
        while rest.len() > 0
            invariant
                rest.len() <= st.len(),
                st == sort_ordered(s, order_of(col, ascending)),
                s == views(old(trees)@),
                forest_size(st) == forest_size(s),
                views(rest@) == st.skip(st.len() - rest.len()),
                views(out@) == sort_each(st.take(st.len() - rest.len()), col, ascending),
            decreases rest.len(),
        {
            let ghost done = st.len() - rest.len();
            let ghost before = rest@;
            let ghost prev = out@;
            let mut node = rest.remove(0);
            assert(node@ == views(before)[0]);
            assert(node@ == st[done]);
            let ghost n0 = node@;
            proof {
                lemma_tree_within_forest(st, done);
                lemma_pviews_views(node.children@);
                assert(tree_size(n0) == 1 + forest_size(n0.children));
            }
            let mut kids: Vec<ProcessInfo> = Vec::new();
            std::mem::swap(&mut kids, &mut node.children);
            assert(views(kids@) == n0.children);
            TreeBuilder::sort_recursive(&mut kids, col, ascending);
            std::mem::swap(&mut kids, &mut node.children);
            proof {
                lemma_pviews_views(node.children@);
                assert(node@ == with_children(n0, sort_forest(n0.children, col, ascending)));
            }
            out.push(node);
            proof {
                assert(st.take(done + 1).drop_last() =~= st.take(done));
                assert(st.take(done + 1).last() == st[done]);
                assert(sort_tree(n0, col, ascending) == with_children(n0, sort_forest(n0.children, col, ascending)));
                assert(sort_each(st.take(done + 1), col, ascending) == sort_each(st.take(done), col, ascending).push(sort_tree(n0, col, ascending)));
                assert(views(out@) =~= views(prev).push(node@));
                assert(views(rest@) =~= views(before).skip(1));
                assert(views(rest@) =~= st.skip(done + 1));
            }
        }
        assert(st.take(st.len() as int) =~= st);
        *trees = out;
    }
}

} // verus!

verus! {

// ─── Laws of the trees ───────────────────────────────────────────────

/// The processes of a list of rows.
pub open spec fn row_processes(s: Seq<(ProcessView, int)>) -> Seq<ProcessView> {
    s.map_values(|e: (ProcessView, int)| e.0)
}

/// Flattening a tree lists its processes depth first, root first.
pub proof fn law_flatten_node_is_preorder(n: ProcessView, d: int)
    ensures
        row_processes(flat_node(n, d)) == preorder_node(n),
    decreases n,
{
    law_flatten_is_preorder(n.children, d + 1);
    assert(row_processes(flat_node(n, d)) =~= preorder_node(n));
}

/// Flattening lists exactly the processes of the trees, depth first, tree
/// after tree; the depths do not change which processes are listed.
pub proof fn law_flatten_is_preorder(s: Seq<ProcessView>, d: int)
    ensures
        row_processes(flat_seq(s, d)) == preorder(s),
    decreases s,
{
    if s.len() > 0 {
        law_flatten_is_preorder(s.drop_last(), d);
        law_flatten_node_is_preorder(s.last(), d);
        assert(row_processes(flat_seq(s, d)) =~= preorder(s));
    } else {
        assert(row_processes(flat_seq(s, d)) =~= preorder(s));
    }
}

/// The PIDs that `collect_pids` gives for a tree are those of the rows
/// that flattening the tree gives, in the same order.
pub proof fn law_collect_pids_matches_flatten(n: ProcessView)
    ensures
        pids_of(preorder_node(n)) == pids_of(row_processes(flat_node(n, 0))),
{
    law_flatten_node_is_preorder(n, 0);
}

proof fn lemma_insert_multiset(t: Seq<ProcessView>, x: ProcessView, before: spec_fn(ProcessView, ProcessView) -> bool)
    ensures
        insert_ordered(t, x, before).to_multiset() == t.to_multiset().insert(x),
    decreases t.len(),
{
    broadcast use vstd::seq_lib::group_to_multiset_ensures;
    if t.len() == 0 {
        assert(seq![x] =~= t.push(x));
    } else if before(x, t.last()) {
        lemma_insert_multiset(t.drop_last(), x, before);
        assert(t.drop_last().push(t.last()) =~= t);
        assert(insert_ordered(t, x, before).to_multiset() =~= t.to_multiset().insert(x));
    }
}

/// Sorting a level only reorders it: it holds the same processes, each as
/// many times as before.
pub proof fn law_sort_level_permutes(s: Seq<ProcessView>, before: spec_fn(ProcessView, ProcessView) -> bool)
    ensures
        sort_ordered(s, before).to_multiset() == s.to_multiset(),
    decreases s.len(),
{
    broadcast use vstd::seq_lib::group_to_multiset_ensures;
    if s.len() > 0 {
        law_sort_level_permutes(s.drop_last(), before);
        lemma_insert_multiset(sort_ordered(s.drop_last(), before), s.last(), before);
        assert(s.drop_last().push(s.last()) =~= s);
    }
}

/// The PIDs of a level never decrease.
pub open spec fn pid_ordered(s: Seq<ProcessView>) -> bool {
    forall|i: int, j: int| 0 <= i < j < s.len() ==> s[i].pid <= s[j].pid
}

proof fn lemma_insert_pid_ordered(t: Seq<ProcessView>, x: ProcessView)
    requires
        pid_ordered(t),
    ensures
        pid_ordered(insert_ordered(t, x, order_of(SortColumn::Pid, true))),
        forall|k: int| 0 <= k < insert_ordered(t, x, order_of(SortColumn::Pid, true)).len() ==> {
            let e = #[trigger] insert_ordered(t, x, order_of(SortColumn::Pid, true))[k];
            e == x || t.contains(e)
        },
    decreases t.len(),
{
    let before = order_of(SortColumn::Pid, true);
    lemma_insert_len(t, x, before);
    if t.len() == 0 {
    } else if before(x, t.last()) {
        let d = t.drop_last();
        assert forall|i: int, j: int| 0 <= i < j < d.len() implies d[i].pid <= d[j].pid by {
            assert(d[i] == t[i] && d[j] == t[j]);
        }
        lemma_insert_pid_ordered(d, x);
        let r = insert_ordered(d, x, before);
        lemma_insert_len(d, x, before);
        assert forall|k: int| 0 <= k < r.len() implies #[trigger] r[k].pid <= t.last().pid by {
            let e = r[k];
            if e != x {
                assert(d.contains(e));
                let m = choose|m: int| 0 <= m < d.len() && d[m] == e;
                assert(t[m] == e);
            }
        }
        assert forall|k: int| 0 <= k < r.push(t.last()).len() implies {
            let e = #[trigger] r.push(t.last())[k];
            e == x || t.contains(e)
        } by {
            if k < r.len() {
                let e = r[k];
                if e != x {
                    assert(d.contains(e));
                    let m = choose|m: int| 0 <= m < d.len() && d[m] == e;
                    assert(t[m] == e);
                }
            } else {
                assert(t[t.len() - 1] == t.last());
            }
        }
    } else {
        assert forall|k: int| 0 <= k < t.push(x).len() implies {
            let e = #[trigger] t.push(x)[k];
            e == x || t.contains(e)
        } by {
            if k < t.len() {
                assert(t.push(x)[k] == t[k]);
            }
        }
        assert forall|i: int, j: int| 0 <= i < j < t.push(x).len() implies t.push(x)[i].pid <= t.push(x)[j].pid by {
            if j == t.len() {
                assert(t[i].pid <= t[t.len() - 1].pid || i == t.len() - 1);
            }
        }
    }
}

/// Sorting a level by PID ascending leaves it in PID order (the order the
/// roots and each group of children are built in).
pub proof fn law_pid_sort_ordered(s: Seq<ProcessView>)
    ensures
        pid_ordered(pid_sorted(s)),
    decreases s.len(),
{
    if s.len() > 0 {
        law_pid_sort_ordered(s.drop_last());
        lemma_insert_pid_ordered(pid_sorted(s.drop_last()), s.last());
    }
}

proof fn lemma_attach_keeps_ids(s: Seq<ProcessView>, rem: Map<u32, Seq<ProcessView>>, fuel: nat)
    ensures
        attach_seq(s, rem, fuel).0.len() == s.len(),
        forall|i: int| 0 <= i < s.len() ==> (#[trigger] attach_seq(s, rem, fuel).0[i]).pid == s[i].pid
            && attach_seq(s, rem, fuel).0[i].ppid == s[i].ppid,
    decreases s.len(),
{
    if s.len() > 0 {
        let a = attach_seq(s.drop_last(), rem, fuel);
        lemma_attach_keeps_ids(s.drop_last(), rem, fuel);
        let b = attach_node(s.last(), a.1, fuel);
        assert forall|i: int| 0 <= i < s.len() implies (#[trigger] attach_seq(s, rem, fuel).0[i]).pid == s[i].pid
            && attach_seq(s, rem, fuel).0[i].ppid == s[i].ppid by {
            if i < s.len() - 1 {
                assert(attach_seq(s, rem, fuel).0[i] == a.0[i]);
                assert(s.drop_last()[i] == s[i]);
            }
        }
    }
}

/// The trees are rooted at the processes whose parent PID is not in the
/// list, one tree each, in PID order.
pub proof fn law_roots_are_orphans(f: Seq<ProcessView>)
    ensures
        forest_of(f).len() == pid_sorted(f).filter(is_root_of(f)).len(),
        forall|i: int| 0 <= i < forest_of(f).len() ==> {
            let t = #[trigger] forest_of(f)[i];
            let r = pid_sorted(f).filter(is_root_of(f))[i];
            &&& t.pid == r.pid
            &&& t.ppid == r.ppid
            &&& !pid_listed(f, t.ppid)
        },
        forall|i: int, j: int| 0 <= i < j < forest_of(f).len() ==> forest_of(f)[i].pid <= forest_of(f)[j].pid,
{
    let sorted = pid_sorted(f);
    let roots = sorted.filter(is_root_of(f));
    let children = sorted.filter(is_child_of(f));
    lemma_attach_keeps_ids(roots, child_groups(children), f.len());
    assert forall|i: int| 0 <= i < roots.len() implies !pid_listed(f, #[trigger] roots[i].ppid) by {
        sorted.lemma_filter_pred(is_root_of(f), i);
    }
    law_pid_sort_ordered(f);
    lemma_filter_pid_ordered(sorted, is_root_of(f));
}

/// Filtering keeps PID order.
proof fn lemma_filter_pid_ordered(s: Seq<ProcessView>, p: spec_fn(ProcessView) -> bool)
    requires
        pid_ordered(s),
    ensures
        pid_ordered(s.filter(p)),
    decreases s.len(),
{
    reveal(Seq::filter);
    if s.len() > 0 {
        let d = s.drop_last();
        assert forall|i: int, j: int| 0 <= i < j < d.len() implies d[i].pid <= d[j].pid by {
            assert(d[i] == s[i] && d[j] == s[j]);
        }
        lemma_filter_pid_ordered(d, p);
        if p(s.last()) {
            let f = d.filter(p);
            assert forall|k: int| 0 <= k < f.len() implies #[trigger] f[k].pid <= s.last().pid by {
                d.lemma_filter_pred(p, k);
                d.lemma_filter_contains_rev(p, f[k]);
                assert(f.contains(f[k]));
                let m = choose|m: int| 0 <= m < d.len() && d[m] == f[k];
                assert(s[m] == f[k]);
            }
        }
    }
}

} // verus!

verus! {

/// Every child in the forest names its parent: its parent PID is the PID
/// of the process it hangs below.
pub open spec fn parent_links(s: Seq<ProcessView>) -> bool {
    forall|k: int, i: int|
        #![trigger preorder(s)[k].children[i]]
        0 <= k < preorder(s).len() && 0 <= i < preorder(s)[k].children.len() ==> preorder(s)[k].children[i].ppid
            == preorder(s)[k].pid
}

/// Every waiting group holds childless processes naming the group's PID.
pub open spec fn groups_ok(rem: Map<u32, Seq<ProcessView>>) -> bool {
    forall|k: u32, j: int|
        #![trigger rem[k][j]]
        rem.contains_key(k) && 0 <= j < rem[k].len() ==> rem[k][j].ppid == k && rem[k][j].children.len() == 0
}

/// `small` is `big` with some entries removed.
pub open spec fn submap_of(small: Map<u32, Seq<ProcessView>>, big: Map<u32, Seq<ProcessView>>) -> bool {
    forall|k: u32| #[trigger] small.contains_key(k) ==> big.contains_key(k) && small[k] == big[k]
}

proof fn lemma_preorder_single(n: ProcessView)
    ensures
        preorder(seq![n]) == preorder_node(n),
{
    assert(seq![n].drop_last() =~= Seq::<ProcessView>::empty());
    assert(preorder(Seq::<ProcessView>::empty()) =~= Seq::<ProcessView>::empty());
    assert(preorder(seq![n]) =~= preorder_node(n));
}

proof fn lemma_links_node(n: ProcessView, rem: Map<u32, Seq<ProcessView>>, fuel: nat)
    requires
        groups_ok(rem),
        n.children.len() == 0,
    ensures
        parent_links(seq![attach_node(n, rem, fuel).0]),
        submap_of(attach_node(n, rem, fuel).1, rem),
    decreases fuel, 0int,
{
    let out = attach_node(n, rem, fuel);
    lemma_preorder_single(out.0);
    if fuel > 0 && rem.contains_key(n.pid) {
        let g = rem[n.pid];
        let r2 = rem.remove(n.pid);
        assert(groups_ok(r2)) by {
            assert forall|k: u32, j: int| #![trigger r2[k][j]] r2.contains_key(k) && 0 <= j < r2[k].len() implies r2[k][j].ppid == k
                && r2[k][j].children.len() == 0 by {
                assert(rem[k][j] == r2[k][j]);
            }
        }
        assert forall|i: int| 0 <= i < g.len() implies (#[trigger] g[i]).children.len() == 0 by {
            assert(rem[n.pid][i] == g[i]);
        }
        lemma_links_seq(g, r2, (fuel - 1) as nat);
        lemma_attach_keeps_ids(g, r2, (fuel - 1) as nat);
        let kids = attach_seq(g, r2, (fuel - 1) as nat).0;
        assert forall|i: int| 0 <= i < kids.len() implies (#[trigger] kids[i]).ppid == n.pid by {
            assert(rem[n.pid][i] == g[i]);
        }
        let p = preorder(seq![out.0]);
        assert(p == seq![out.0] + preorder(kids));
        assert forall|k: int, i: int|
            #![trigger p[k].children[i]]
            0 <= k < p.len() && 0 <= i < p[k].children.len() implies p[k].children[i].ppid == p[k].pid by {
            if k > 0 {
                assert(p[k] == preorder(kids)[k - 1]);
            }
        }
        assert forall|k: u32| #[trigger] out.1.contains_key(k) implies rem.contains_key(k) && out.1[k] == rem[k] by {
            assert(r2.contains_key(k));
        }
    } else {
        let p = preorder(seq![out.0]);
        assert(preorder(out.0.children) =~= Seq::<ProcessView>::empty());
        assert(p =~= seq![out.0]);
    }
}

proof fn lemma_links_seq(s: Seq<ProcessView>, rem: Map<u32, Seq<ProcessView>>, fuel: nat)
    requires
        groups_ok(rem),
        forall|i: int| 0 <= i < s.len() ==> (#[trigger] s[i]).children.len() == 0,
    ensures
        parent_links(attach_seq(s, rem, fuel).0),
        submap_of(attach_seq(s, rem, fuel).1, rem),
    decreases fuel, s.len() + 1,
{
    let out = attach_seq(s, rem, fuel);
    if s.len() == 0 {
        assert(preorder(out.0) =~= Seq::<ProcessView>::empty());
    } else {
        let d = s.drop_last();
        assert forall|i: int| 0 <= i < d.len() implies (#[trigger] d[i]).children.len() == 0 by {
            assert(d[i] == s[i]);
        }
        lemma_links_seq(d, rem, fuel);
        let a = attach_seq(d, rem, fuel);
        assert(groups_ok(a.1)) by {
            assert forall|k: u32, j: int| #![trigger a.1[k][j]] a.1.contains_key(k) && 0 <= j < a.1[k].len() implies a.1[k][j].ppid == k
                && a.1[k][j].children.len() == 0 by {
                assert(rem[k][j] == a.1[k][j]);
            }
        }
        assert(s.last() == s[s.len() - 1]);
        lemma_links_node(s.last(), a.1, fuel);
        let b = attach_node(s.last(), a.1, fuel);
        lemma_preorder_single(b.0);
        lemma_preorder_append(a.0, seq![b.0]);
        assert(a.0.push(b.0) =~= a.0 + seq![b.0]);
        let p = preorder(out.0);
        let pa = preorder(a.0);
        let pb = preorder(seq![b.0]);
        assert(p == pa + pb);
        assert forall|k: int, i: int|
            #![trigger p[k].children[i]]
            0 <= k < p.len() && 0 <= i < p[k].children.len() implies p[k].children[i].ppid == p[k].pid by {
            if k < pa.len() {
                assert(p[k] == pa[k]);
            } else {
                assert(p[k] == pb[k - pa.len()]);
            }
        }
    }
}

/// Built from processes that have no children of their own (as a scan
/// gives them), every child in the trees hangs below the process whose
/// PID is its parent PID.
pub proof fn law_children_below_parent(f: Seq<ProcessView>)
    requires
        forall|i: int| 0 <= i < f.len() ==> (#[trigger] f[i]).children.len() == 0,
    ensures
        parent_links(forest_of(f)),
{
    broadcast use vstd::seq_lib::group_to_multiset_ensures;
    let sorted = pid_sorted(f);
    let roots = sorted.filter(is_root_of(f));
    let children = sorted.filter(is_child_of(f));
    law_sort_level_permutes(f, order_of(SortColumn::Pid, true));
    assert forall|x: ProcessView| sorted.contains(x) implies x.children.len() == 0 by {
        assert(sorted.to_multiset().count(x) > 0);
        assert(f.contains(x));
    }
    assert forall|i: int| 0 <= i < roots.len() implies (#[trigger] roots[i]).children.len() == 0 by {
        sorted.lemma_filter_contains_rev(is_root_of(f), roots[i]);
        assert(roots.contains(roots[i]));
    }
    let g = child_groups(children);
    assert forall|k: u32, j: int| #![trigger g[k][j]] g.contains_key(k) && 0 <= j < g[k].len() implies g[k][j].ppid == k
        && g[k][j].children.len() == 0 by {
        let grp = children.filter(crate::seqs::key_is(ppid_key(), k));
        assert(g[k] == grp);
        children.lemma_filter_pred(crate::seqs::key_is(ppid_key(), k), j);
        children.lemma_filter_contains_rev(crate::seqs::key_is(ppid_key(), k), grp[j]);
        assert(grp.contains(grp[j]));
        sorted.lemma_filter_contains_rev(is_child_of(f), grp[j]);
    }
    lemma_links_seq(roots, g, f.len());
}

} // verus!

verus! {

/// Sorting a tree keeps all its processes.
pub proof fn law_sort_tree_keeps_size(n: ProcessView, col: SortColumn, ascending: bool)
    ensures
        tree_size(sort_tree(n, col, ascending)) == tree_size(n),
    decreases tree_size(n), 0int,
{
    assert(tree_size(n) == 1 + forest_size(n.children));
    law_sort_forest_keeps_size(n.children, col, ascending);
    let c = sort_forest(n.children, col, ascending);
    assert(tree_size(with_children(n, c)) == 1 + forest_size(c));
}

/// Sorting the trees keeps all their processes: `sort_recursive` only
/// reorders.
pub proof fn law_sort_forest_keeps_size(s: Seq<ProcessView>, col: SortColumn, ascending: bool)
    ensures
        forest_size(sort_forest(s, col, ascending)) == forest_size(s),
    decreases forest_size(s), 2int,
{
    lemma_sort_size(s, order_of(col, ascending));
    lemma_sort_each_size(sort_ordered(s, order_of(col, ascending)), col, ascending);
}

proof fn lemma_sort_each_size(t: Seq<ProcessView>, col: SortColumn, ascending: bool)
    ensures
        forest_size(sort_each(t, col, ascending)) == forest_size(t),
    decreases forest_size(t), 1int,
{
    if t.len() > 0 {
        lemma_push_size(t.drop_last(), t.last());
        assert(t.drop_last().push(t.last()) =~= t);
        assert(tree_size(t.last()) >= 1);
        lemma_sort_each_size(t.drop_last(), col, ascending);
        law_sort_tree_keeps_size(t.last(), col, ascending);
        lemma_push_size(sort_each(t.drop_last(), col, ascending), sort_tree(t.last(), col, ascending));
    }
}

// ─── Properties that hold of every process of a forest ────────────────

/// Every process of the tree, at any depth, satisfies `p`.
pub open spec fn tree_all(n: ProcessView, p: spec_fn(ProcessView) -> bool) -> bool
    decreases n,
{
    p(n) && forest_all(n.children, p)
}

/// Every process of the forest, at any depth, satisfies `p`.
pub open spec fn forest_all(s: Seq<ProcessView>, p: spec_fn(ProcessView) -> bool) -> bool
    decreases s,
{
    s.len() == 0 || (forest_all(s.drop_last(), p) && tree_all(s.last(), p))
}

/// `p` looks at a process's own fields only, never at its children.
pub open spec fn ignores_children(p: spec_fn(ProcessView) -> bool) -> bool {
    forall|n: ProcessView, c: Seq<ProcessView>| #[trigger] p(with_children(n, c)) == p(n)
}

/// Every waiting group of children satisfies `p` throughout.
pub open spec fn groups_all(rem: Map<u32, Seq<ProcessView>>, p: spec_fn(ProcessView) -> bool) -> bool {
    forall|k: u32| rem.contains_key(k) ==> forest_all(#[trigger] rem[k], p)
}

/// A forest satisfies `p` throughout exactly when each of its trees does.
pub proof fn lemma_forest_all_index(s: Seq<ProcessView>, p: spec_fn(ProcessView) -> bool)
    ensures
        forest_all(s, p) <==> (forall|i: int| 0 <= i < s.len() ==> #[trigger] tree_all(s[i], p)),
    decreases s.len(),
{
    if s.len() > 0 {
        lemma_forest_all_index(s.drop_last(), p);
        assert forall|i: int| 0 <= i < s.len() - 1 implies #[trigger] s.drop_last()[i] == s[i] by {}
        if forall|i: int| 0 <= i < s.len() ==> #[trigger] tree_all(s[i], p) {
            assert forall|i: int| 0 <= i < s.drop_last().len() implies #[trigger] tree_all(s.drop_last()[i], p) by {
                assert(s.drop_last()[i] == s[i]);
            }
            assert(tree_all(s[s.len() - 1], p));
        }
        if forest_all(s, p) {
            assert forall|i: int| 0 <= i < s.len() implies #[trigger] tree_all(s[i], p) by {
                if i < s.len() - 1 {
                    assert(tree_all(s.drop_last()[i], p));
                }
            }
        }
    }
}

/// A forest whose trees are all trees of `t` satisfies `p` throughout when
/// `t` does.
pub proof fn lemma_forest_all_contained(s: Seq<ProcessView>, t: Seq<ProcessView>, p: spec_fn(ProcessView) -> bool)
    requires
        forest_all(t, p),
        forall|x: ProcessView| s.contains(x) ==> t.contains(x),
    ensures
        forest_all(s, p),
{
    lemma_forest_all_index(t, p);
    lemma_forest_all_index(s, p);
    assert forall|i: int| 0 <= i < s.len() implies #[trigger] tree_all(s[i], p) by {
        assert(s.contains(s[i]));
        let j = choose|j: int| 0 <= j < t.len() && t[j] == s[i];
        assert(tree_all(t[j], p));
    }
}

/// Attaching children keeps `p` throughout, when `p` ignores children.
proof fn lemma_attach_node_all(n: ProcessView, rem: Map<u32, Seq<ProcessView>>, fuel: nat, p: spec_fn(ProcessView) -> bool)
    requires
        ignores_children(p),
        tree_all(n, p),
        groups_all(rem, p),
    ensures
        tree_all(attach_node(n, rem, fuel).0, p),
        groups_all(attach_node(n, rem, fuel).1, p),
    decreases fuel, 0int,
{
    if fuel > 0 && rem.contains_key(n.pid) {
        let rest = rem.remove(n.pid);
        assert(groups_all(rest, p)) by {
            assert forall|k: u32| rest.contains_key(k) implies forest_all(#[trigger] rest[k], p) by {
                assert(rem.contains_key(k) && rem[k] == rest[k]);
            }
        }
        assert(forest_all(rem[n.pid], p));
        lemma_attach_seq_all(rem[n.pid], rest, (fuel - 1) as nat, p);
        let r = attach_seq(rem[n.pid], rest, (fuel - 1) as nat);
        assert(p(with_children(n, r.0)) == p(n));
    }
}

/// Attaching children to each tree keeps `p` throughout.
proof fn lemma_attach_seq_all(s: Seq<ProcessView>, rem: Map<u32, Seq<ProcessView>>, fuel: nat, p: spec_fn(ProcessView) -> bool)
    requires
        ignores_children(p),
        forest_all(s, p),
        groups_all(rem, p),
    ensures
        forest_all(attach_seq(s, rem, fuel).0, p),
        groups_all(attach_seq(s, rem, fuel).1, p),
    decreases fuel, s.len() + 1,
{
    if s.len() > 0 {
        lemma_attach_seq_all(s.drop_last(), rem, fuel, p);
        let a = attach_seq(s.drop_last(), rem, fuel);
        lemma_attach_node_all(s.last(), a.1, fuel, p);
        let b = attach_node(s.last(), a.1, fuel);
        assert(a.0.push(b.0).drop_last() =~= a.0);
    }
}

/// Building the trees keeps `p` throughout: when every given process
/// satisfies `p` throughout and `p` ignores children, so does every
/// process of the trees.
pub proof fn lemma_forest_of_all(flat: Seq<ProcessView>, p: spec_fn(ProcessView) -> bool)
    requires
        ignores_children(p),
        forest_all(flat, p),
    ensures
        forest_all(forest_of(flat), p),
{
    broadcast use vstd::seq_lib::to_multiset_contains, vstd::seq::Seq::lemma_filter_contains_rev;
    let before = order_of(SortColumn::Pid, true);
    let sorted = pid_sorted(flat);
    law_sort_level_permutes(flat, before);
    assert forall|x: ProcessView| sorted.contains(x) implies flat.contains(x) by {
        assert(sorted.to_multiset().count(x) > 0);
    }
    lemma_forest_all_contained(sorted, flat, p);
    let roots = sorted.filter(is_root_of(flat));
    let children = sorted.filter(is_child_of(flat));
    lemma_forest_all_contained(roots, sorted, p);
    lemma_forest_all_contained(children, sorted, p);
    let groups = child_groups(children);
    assert(groups_all(groups, p)) by {
        assert forall|k: u32| groups.contains_key(k) implies forest_all(#[trigger] groups[k], p) by {
            lemma_forest_all_contained(children.filter(crate::seqs::key_is(ppid_key(), k)), children, p);
        }
    }
    lemma_attach_seq_all(roots, groups, flat.len(), p);
}

/// Sorting a tree keeps `p` throughout.
proof fn lemma_sort_tree_all(n: ProcessView, col: SortColumn, ascending: bool, p: spec_fn(ProcessView) -> bool)
    requires
        ignores_children(p),
        tree_all(n, p),
    ensures
        tree_all(sort_tree(n, col, ascending), p),
    decreases tree_size(n), 0int,
{
    lemma_sort_forest_all(n.children, col, ascending, p);
    assert(p(with_children(n, sort_forest(n.children, col, ascending))) == p(n));
}

/// Sorting a forest keeps `p` throughout.
pub proof fn lemma_sort_forest_all(s: Seq<ProcessView>, col: SortColumn, ascending: bool, p: spec_fn(ProcessView) -> bool)
    requires
        ignores_children(p),
        forest_all(s, p),
    ensures
        forest_all(sort_forest(s, col, ascending), p),
    decreases forest_size(s), 2int,
{
    broadcast use vstd::seq_lib::to_multiset_contains;
    let before = order_of(col, ascending);
    let t = sort_ordered(s, before);
    law_sort_level_permutes(s, before);
    lemma_sort_size(s, before);
    assert forall|x: ProcessView| t.contains(x) implies s.contains(x) by {
        assert(t.to_multiset().count(x) > 0);
    }
    lemma_forest_all_contained(t, s, p);
    lemma_sort_each_all(t, col, ascending, p);
}

/// Sorting each tree in place keeps `p` throughout.
proof fn lemma_sort_each_all(t: Seq<ProcessView>, col: SortColumn, ascending: bool, p: spec_fn(ProcessView) -> bool)
    requires
        ignores_children(p),
        forest_all(t, p),
    ensures
        forest_all(sort_each(t, col, ascending), p),
    decreases forest_size(t), 1int,
{
    if t.len() > 0 {
        lemma_push_size(t.drop_last(), t.last());
        assert(t.drop_last().push(t.last()) =~= t);
        lemma_tree_within_forest(t, t.len() - 1);
        lemma_sort_each_all(t.drop_last(), col, ascending, p);
        lemma_sort_tree_all(t.last(), col, ascending, p);
        let e = sort_each(t.drop_last(), col, ascending);
        assert(e.push(sort_tree(t.last(), col, ascending)).drop_last() =~= e);
    }
}

// ─── Sorted levels ───────────────────────────────────────────────────

/// No process of `s` belongs strictly before an earlier one.
pub open spec fn sorted_by(s: Seq<ProcessView>, before: spec_fn(ProcessView, ProcessView) -> bool) -> bool {
    forall|i: int, j: int| 0 <= i < j < s.len() ==> !before(#[trigger] s[j], #[trigger] s[i])
}

/// `before` is a strict weak order on the processes that satisfy `d`: it is
/// asymmetric, and not being before is transitive.
pub open spec fn weak_order_on(before: spec_fn(ProcessView, ProcessView) -> bool, d: spec_fn(ProcessView) -> bool) -> bool {
    &&& forall|a: ProcessView, b: ProcessView| d(a) && d(b) && #[trigger] before(a, b) ==> !before(b, a)
    &&& forall|a: ProcessView, b: ProcessView, c: ProcessView|
        d(a) && d(b) && d(c) && !#[trigger] before(a, b) && !#[trigger] before(b, c) ==> !before(a, c)
}

/// `before` looks at the processes' own fields only, never at children.
pub open spec fn order_ignores_children(before: spec_fn(ProcessView, ProcessView) -> bool) -> bool {
    forall|a: ProcessView, b: ProcessView, ca: Seq<ProcessView>, cb: Seq<ProcessView>|
        #[trigger] before(with_children(a, ca), with_children(b, cb)) == before(a, b)
}

/// Inserting into a sorted sequence keeps it sorted.
proof fn lemma_insert_sorted(
    t: Seq<ProcessView>,
    x: ProcessView,
    before: spec_fn(ProcessView, ProcessView) -> bool,
    d: spec_fn(ProcessView) -> bool,
)
    requires
        sorted_by(t, before),
        weak_order_on(before, d),
        forall|i: int| 0 <= i < t.len() ==> d(#[trigger] t[i]),
        d(x),
    ensures
        sorted_by(insert_ordered(t, x, before), before),
    decreases t.len(),
{
    broadcast use vstd::seq_lib::to_multiset_contains;
    if t.len() == 0 {
    } else if before(x, t.last()) {
        let u = t.drop_last();
        let l = t.last();
        assert forall|i: int, j: int| 0 <= i < j < u.len() implies !before(#[trigger] u[j], #[trigger] u[i]) by {
            assert(u[i] == t[i] && u[j] == t[j]);
        }
        lemma_insert_sorted(u, x, before, d);
        let w = insert_ordered(u, x, before);
        lemma_insert_multiset(u, x, before);
        let r = w.push(l);
        assert forall|i: int, j: int| 0 <= i < j < r.len() implies !before(#[trigger] r[j], #[trigger] r[i]) by {
            if j == r.len() - 1 {
                assert(r[j] == l);
                assert(r[i] == w[i]);
                assert(w.contains(w[i]));
                assert(w.to_multiset().count(w[i]) > 0);
                if w[i] == x {
                    assert(d(l));
                } else {
                    assert(u.to_multiset().count(w[i]) > 0);
                    assert(u.contains(w[i]));
                    let k = choose|k: int| 0 <= k < u.len() && u[k] == w[i];
                    assert(t[k] == w[i]);
                    assert(!before(t[t.len() - 1], t[k]));
                }
            } else {
                assert(r[i] == w[i] && r[j] == w[j]);
            }
        }
    } else {
        let r = t.push(x);
        assert forall|i: int, j: int| 0 <= i < j < r.len() implies !before(#[trigger] r[j], #[trigger] r[i]) by {
            if j == r.len() - 1 {
                assert(r[j] == x);
                assert(r[i] == t[i]);
                if i < t.len() - 1 {
                    assert(!before(t[t.len() - 1], t[i]));
                    assert(d(t[t.len() - 1]) && d(t[i]));
                }
            } else {
                assert(r[i] == t[i] && r[j] == t[j]);
            }
        }
    }
}

/// Sorting by a strict weak order leaves the sequence sorted.
pub proof fn lemma_sort_sorted(s: Seq<ProcessView>, before: spec_fn(ProcessView, ProcessView) -> bool, d: spec_fn(ProcessView) -> bool)
    requires
        weak_order_on(before, d),
        forall|i: int| 0 <= i < s.len() ==> d(#[trigger] s[i]),
    ensures
        sorted_by(sort_ordered(s, before), before),
    decreases s.len(),
{
    broadcast use vstd::seq_lib::to_multiset_contains;
    if s.len() > 0 {
        let u = s.drop_last();
        assert forall|i: int| 0 <= i < u.len() implies d(#[trigger] u[i]) by {
            assert(u[i] == s[i]);
        }
        lemma_sort_sorted(u, before, d);
        let t = sort_ordered(u, before);
        law_sort_level_permutes(u, before);
        assert forall|i: int| 0 <= i < t.len() implies d(#[trigger] t[i]) by {
            assert(t.contains(t[i]));
            assert(t.to_multiset().count(t[i]) > 0);
            assert(u.contains(t[i]));
        }
        lemma_insert_sorted(t, s.last(), before, d);
    }
}

/// Sorting each tree below its root keeps the roots in place.
proof fn lemma_sort_each_index(t: Seq<ProcessView>, col: SortColumn, ascending: bool)
    ensures
        sort_each(t, col, ascending).len() == t.len(),
        forall|i: int| 0 <= i < t.len() ==> #[trigger] sort_each(t, col, ascending)[i] == sort_tree(t[i], col, ascending),
    decreases t.len(),
{
    if t.len() > 0 {
        lemma_sort_each_index(t.drop_last(), col, ascending);
        assert forall|i: int| 0 <= i < t.len() implies #[trigger] sort_each(t, col, ascending)[i] == sort_tree(t[i], col, ascending) by {
            if i < t.len() - 1 {
                assert(t.drop_last()[i] == t[i]);
            }
        }
    }
}

/// The children of every process are sorted by `before`.
pub open spec fn children_sorted(before: spec_fn(ProcessView, ProcessView) -> bool) -> spec_fn(ProcessView) -> bool {
    |n: ProcessView| sorted_by(n.children, before)
}

/// Sorting a tree leaves every level below it sorted.
proof fn lemma_sort_tree_levels(n: ProcessView, col: SortColumn, ascending: bool, d: spec_fn(ProcessView) -> bool)
    requires
        weak_order_on(order_of(col, ascending), d),
        order_ignores_children(order_of(col, ascending)),
        ignores_children(d),
        tree_all(n, d),
    ensures
        tree_all(sort_tree(n, col, ascending), children_sorted(order_of(col, ascending))),
    decreases tree_size(n), 0int,
{
    lemma_sort_forest_levels(n.children, col, ascending, d);
}

/// Sorting a forest leaves its top level and every level below sorted.
proof fn lemma_sort_forest_levels(s: Seq<ProcessView>, col: SortColumn, ascending: bool, d: spec_fn(ProcessView) -> bool)
    requires
        weak_order_on(order_of(col, ascending), d),
        order_ignores_children(order_of(col, ascending)),
        ignores_children(d),
        forest_all(s, d),
    ensures
        sorted_by(sort_forest(s, col, ascending), order_of(col, ascending)),
        forest_all(sort_forest(s, col, ascending), children_sorted(order_of(col, ascending))),
    decreases forest_size(s), 2int,
{
    broadcast use vstd::seq_lib::to_multiset_contains;
    let before = order_of(col, ascending);
    let t = sort_ordered(s, before);
    lemma_forest_all_index(s, d);
    assert forall|i: int| 0 <= i < s.len() implies d(#[trigger] s[i]) by {
        assert(tree_all(s[i], d));
    }
    lemma_sort_sorted(s, before, d);
    law_sort_level_permutes(s, before);
    lemma_sort_size(s, before);
    assert forall|x: ProcessView| t.contains(x) implies s.contains(x) by {
        assert(t.to_multiset().count(x) > 0);
    }
    lemma_forest_all_contained(t, s, d);
    lemma_sort_each_levels(t, col, ascending, d);
    lemma_sort_each_index(t, col, ascending);
    let e = sort_each(t, col, ascending);
    assert forall|i: int, j: int| 0 <= i < j < e.len() implies !before(#[trigger] e[j], #[trigger] e[i]) by {
        assert(e[i] == with_children(t[i], sort_forest(t[i].children, col, ascending)));
        assert(e[j] == with_children(t[j], sort_forest(t[j].children, col, ascending)));
        assert(before(e[j], e[i]) == before(t[j], t[i]));
    }
}

/// Sorting each tree in place leaves every level below sorted.
proof fn lemma_sort_each_levels(t: Seq<ProcessView>, col: SortColumn, ascending: bool, d: spec_fn(ProcessView) -> bool)
    requires
        weak_order_on(order_of(col, ascending), d),
        order_ignores_children(order_of(col, ascending)),
        ignores_children(d),
        forest_all(t, d),
    ensures
        forest_all(sort_each(t, col, ascending), children_sorted(order_of(col, ascending))),
    decreases forest_size(t), 1int,
{
    if t.len() > 0 {
        lemma_push_size(t.drop_last(), t.last());
        assert(t.drop_last().push(t.last()) =~= t);
        lemma_tree_within_forest(t, t.len() - 1);
        lemma_sort_each_levels(t.drop_last(), col, ascending, d);
        lemma_sort_tree_levels(t.last(), col, ascending, d);
        let e = sort_each(t.drop_last(), col, ascending);
        assert(e.push(sort_tree(t.last(), col, ascending)).drop_last() =~= e);
    }
}

/// Sorting the trees by a column sorts every level: the roots and the
/// children of every process are in the column's order (ascending or
/// descending), when that order looks at each process's own fields and is a
/// strict weak order on the processes of the trees.
pub proof fn law_sort_forest_sorts_levels(s: Seq<ProcessView>, col: SortColumn, ascending: bool, d: spec_fn(ProcessView) -> bool)
    requires
        weak_order_on(order_of(col, ascending), d),
        order_ignores_children(order_of(col, ascending)),
        ignores_children(d),
        forest_all(s, d),
    ensures
        sorted_by(sort_forest(s, col, ascending), order_of(col, ascending)),
        forest_all(sort_forest(s, col, ascending), children_sorted(order_of(col, ascending))),
{
    lemma_sort_forest_levels(s, col, ascending, d);
}

/// `e` and `x` are tied: neither belongs before the other.
pub open spec fn tied_with(before: spec_fn(ProcessView, ProcessView) -> bool, x: ProcessView) -> spec_fn(ProcessView) -> bool {
    |e: ProcessView| !before(e, x) && !before(x, e)
}

/// Inserting keeps the processes tied with `x` in their order, the new one
/// last among them.
proof fn lemma_insert_stable(
    t: Seq<ProcessView>,
    y: ProcessView,
    before: spec_fn(ProcessView, ProcessView) -> bool,
    p: spec_fn(ProcessView) -> bool,
)
    requires
        forall|e: ProcessView| t.contains(e) && p(e) && p(y) ==> !before(y, e),
    ensures
        insert_ordered(t, y, before).filter(p) == if p(y) {
            t.filter(p).push(y)
        } else {
            t.filter(p)
        },
    decreases t.len(),
{
    broadcast use vstd::seq::Seq::lemma_filter_push;
    if t.len() == 0 {
        assert(seq![y] =~= Seq::<ProcessView>::empty().push(y));
        assert(Seq::<ProcessView>::empty().filter(p) =~= Seq::<ProcessView>::empty()) by {
            reveal(Seq::filter);
        }
    } else if before(y, t.last()) {
        let u = t.drop_last();
        assert forall|e: ProcessView| u.contains(e) && p(e) && p(y) implies !before(y, e) by {
            let k = choose|k: int| 0 <= k < u.len() && u[k] == e;
            assert(t[k] == e);
            assert(t.contains(e));
        }
        lemma_insert_stable(u, y, before, p);
        assert(u.push(t.last()) =~= t);
        assert(t.contains(t.last()));
    }
}

/// Sorting is stable: the processes tied with any `x` keep their order.
pub proof fn law_sort_level_stable(
    s: Seq<ProcessView>,
    before: spec_fn(ProcessView, ProcessView) -> bool,
    d: spec_fn(ProcessView) -> bool,
    x: ProcessView,
)
    requires
        weak_order_on(before, d),
        forall|i: int| 0 <= i < s.len() ==> d(#[trigger] s[i]),
        d(x),
    ensures
        sort_ordered(s, before).filter(tied_with(before, x)) == s.filter(tied_with(before, x)),
    decreases s.len(),
{
    broadcast use vstd::seq_lib::to_multiset_contains, vstd::seq::Seq::lemma_filter_push;
    let p = tied_with(before, x);
    if s.len() == 0 {
    } else {
        let u = s.drop_last();
        let y = s.last();
        assert forall|i: int| 0 <= i < u.len() implies d(#[trigger] u[i]) by {
            assert(u[i] == s[i]);
        }
        law_sort_level_stable(u, before, d, x);
        let t = sort_ordered(u, before);
        law_sort_level_permutes(u, before);
        assert forall|e: ProcessView| t.contains(e) && p(e) && p(y) implies !before(y, e) by {
            assert(t.to_multiset().count(e) > 0);
            assert(u.contains(e));
            let k = choose|k: int| 0 <= k < u.len() && u[k] == e;
            assert(d(u[k]));
            assert(d(s[s.len() - 1]));
            assert(!before(y, x) && !before(x, e));
        }
        lemma_insert_stable(t, y, before, p);
        assert(u.push(y) =~= s);
    }
}

} // verus!
