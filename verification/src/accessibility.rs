//! Accessibility trees for desktop sessions.
//!
//! A Qt application publishes a structured tree of its controls: role, name,
//! description, state, and screen bounds. It lets an agent address a control
//! by identity instead of estimating pixel coordinates from a screenshot.

use crate::text::str_eq;
use vstd::prelude::*;

verus! {

/// A node's rectangle in output pixels.
#[derive(Debug, Clone, Copy, PartialEq, Eq, Structural)]
pub struct Bounds {
    pub x: i32,
    pub y: i32,
    pub width: i32,
    pub height: i32,
}

/// One accessible object, with its children.
#[derive(Debug)]
pub struct Node {
    /// Opaque handle that addresses this object in a later request.
    pub reference: String,
    pub role: String,
    pub name: String,
    pub description: String,
    pub states: Vec<String>,
    /// Absent when the object has no on-screen geometry.
    pub bounds: Option<Bounds>,
    pub children: Vec<Node>,
}

/// The first node, depth-first and parent before children, whose reference is
/// `r`.
pub open spec fn spec_find(n: Node, r: Seq<char>) -> Option<Node>
    decreases n,
{
    if n.reference@ == r {
        Some(n)
    } else {
        spec_find_in(n.children@, r)
    }
}

/// The first match among a list of subtrees, in order.
pub open spec fn spec_find_in(cs: Seq<Node>, r: Seq<char>) -> Option<Node>
    decreases cs,
{
    if cs.len() == 0 {
        None
    } else {
        match spec_find_in(cs.drop_last(), r) {
            Some(m) => Some(m),
            None => spec_find(cs.last(), r),
        }
    }
}

/// Whether some node of the tree has reference `r`.
pub open spec fn has_ref(n: Node, r: Seq<char>) -> bool
    decreases n,
{
    n.reference@ == r || has_ref_in(n.children@, r)
}

pub open spec fn has_ref_in(cs: Seq<Node>, r: Seq<char>) -> bool
    decreases cs,
{
    cs.len() > 0 && (has_ref_in(cs.drop_last(), r) || has_ref(cs.last(), r))
}

/// A found node has the reference asked for, and nothing is found exactly when
/// no node has it.
pub proof fn lemma_find_is_exact(n: Node, r: Seq<char>)
    ensures
        spec_find(n, r) is None <==> !has_ref(n, r),
        spec_find(n, r) matches Some(m) ==> m.reference@ == r,
    decreases n,
{
    if n.reference@ != r {
        lemma_find_in_is_exact(n.children@, r);
    }
}

proof fn lemma_find_in_is_exact(cs: Seq<Node>, r: Seq<char>)
    ensures
        spec_find_in(cs, r) is None <==> !has_ref_in(cs, r),
        spec_find_in(cs, r) matches Some(m) ==> m.reference@ == r,
    decreases cs,
{
    if cs.len() > 0 {
        lemma_find_in_is_exact(cs.drop_last(), r);
        lemma_find_is_exact(cs.last(), r);
    }
}

impl Node {
    /// Find a node by its reference, depth-first.
    pub fn find(&self, reference: &str) -> (res: Option<&Node>)
        ensures
            match res {
                Some(m) => spec_find(*self, reference@) == Some(*m),
                None => spec_find(*self, reference@) is None,
            },
        decreases *self,
    {
        if str_eq(self.reference.as_str(), reference) {
            return Some(self);
        }
        let mut i: usize = 0;
        while i < self.children.len()
            invariant
                i <= self.children.len(),
                self.reference@ != reference@,
                spec_find_in(self.children@.take(i as int), reference@) is None,
            decreases self.children.len() - i,
        {
            proof {
                assert(self.children@.take(i + 1).drop_last() =~= self.children@.take(i as int));
                assert(decreases_to!(*self => self.children@[i as int]));
            }
            let found = self.children[i].find(reference);
            if found.is_some() {
                proof {
                    lemma_find_in_prefix(self.children@, i as int, reference@);
                }
                return found;
            }
            i = i + 1;
        }
        assert(self.children@.take(self.children.len() as int) =~= self.children@);
        None
    }
}

proof fn lemma_find_in_prefix(cs: Seq<Node>, i: int, r: Seq<char>)
    requires
        0 <= i < cs.len(),
        spec_find_in(cs.take(i), r) is None,
        spec_find(cs[i], r) is Some,
    ensures
        spec_find_in(cs, r) == spec_find(cs[i], r),
    decreases cs.len() - i,
{
    assert(cs.take(i + 1).drop_last() =~= cs.take(i));
    if i + 1 < cs.len() {
        lemma_find_in_prefix_extend(cs, i + 1, r);
    } else {
        assert(cs.take(i + 1) =~= cs);
    }
}

proof fn lemma_find_in_prefix_extend(cs: Seq<Node>, k: int, r: Seq<char>)
    requires
        0 < k <= cs.len(),
        spec_find_in(cs.take(k), r) is Some,
    ensures
        spec_find_in(cs, r) == spec_find_in(cs.take(k), r),
    decreases cs.len() - k,
{
    if k < cs.len() {
        assert(cs.take(k + 1).drop_last() =~= cs.take(k));
        lemma_find_in_prefix_extend(cs, k + 1, r);
    } else {
        assert(cs.take(k) =~= cs);
    }
}


/// What a walk observed about the tree's content.
///
/// The registry always exposes its own chrome: a desktop root plus one
/// `application` entry per publishing process, whose direct children are the
/// application's top-level windows. Counts cover only what the application
/// published inside its windows: `nodes` and `max_depth` describe the
/// application subtrees, and `named` counts named objects strictly below the
/// top-level windows, so neither the process name nor a window title masks a
/// control surface that publishes no names.
#[derive(Debug, Clone, Copy, PartialEq, Eq, Structural)]
pub struct TreeStats {
    /// Applications publishing on the session's bus.
    pub applications: usize,
    /// Objects in the application subtrees, applications included.
    pub nodes: usize,
    /// Named objects strictly below the application's top-level windows.
    pub named: usize,
    /// Deepest application subtree, applications counted as level one.
    pub max_depth: usize,
}

/// A walked tree with its measured content.
#[derive(Debug)]
pub struct Tree {
    pub root: Node,
    pub stats: TreeStats,
}

impl Tree {
    /// Find a node by its reference, depth-first.
    pub fn find(&self, reference: &str) -> (res: Option<&Node>)
        ensures
            match res {
                Some(m) => spec_find(self.root, reference@) == Some(*m),
                None => spec_find(self.root, reference@) is None,
            },
    {
        self.root.find(reference)
    }
}

/// Nodes in a subtree, its root included.
pub open spec fn size(n: Node) -> nat
    decreases n,
{
    1 + size_in(n.children@)
}

pub open spec fn size_in(cs: Seq<Node>) -> nat
    decreases cs,
{
    if cs.len() == 0 {
        0
    } else {
        size_in(cs.drop_last()) + size(cs.last())
    }
}

/// Levels in a subtree, its root counted as one.
pub open spec fn depth(n: Node) -> nat
    decreases n,
{
    1 + depth_in(n.children@)
}

/// The deepest subtree of a list, zero for none.
pub open spec fn depth_in(cs: Seq<Node>) -> nat
    decreases cs,
{
    if cs.len() == 0 {
        0
    } else {
        let rest = depth_in(cs.drop_last());
        let last = depth(cs.last());
        if rest >= last {
            rest
        } else {
            last
        }
    }
}

/// Named nodes strictly below `n`.
pub open spec fn named_below(n: Node) -> nat
    decreases n,
{
    named_in(n.children@)
}

/// Named nodes in a list of subtrees, their roots included.
pub open spec fn named_in(cs: Seq<Node>) -> nat
    decreases cs,
{
    if cs.len() == 0 {
        0
    } else {
        named_in(cs.drop_last()) + (if cs.last().name@.len() > 0 {
            1nat
        } else {
            0nat
        }) + named_below(cs.last())
    }
}

/// Named nodes strictly below the windows of a list of applications.
pub open spec fn named_in_windows(apps: Seq<Node>) -> nat
    decreases apps.len(),
{
    if apps.len() == 0 {
        0
    } else {
        named_in_windows(apps.drop_last()) + windows_named(apps.last().children@)
    }
}

/// Named nodes strictly below each window of a list.
pub open spec fn windows_named(windows: Seq<Node>) -> nat
    decreases windows.len(),
{
    if windows.len() == 0 {
        0
    } else {
        windows_named(windows.drop_last()) + named_below(windows.last())
    }
}

/// The statistics of a registry root: its children are the applications.
pub open spec fn spec_measure(root: Node) -> TreeStats {
    TreeStats {
        applications: root.children@.len() as usize,
        nodes: size_in(root.children@) as usize,
        named: named_in_windows(root.children@) as usize,
        max_depth: depth_in(root.children@) as usize,
    }
}

proof fn lemma_size_bounds(n: Node)
    ensures
        named_below(n) < size(n),
        depth(n) <= size(n),
    decreases n,
{
    lemma_size_in_bounds(n.children@);
}

proof fn lemma_size_in_bounds(cs: Seq<Node>)
    ensures
        named_in(cs) <= size_in(cs),
        depth_in(cs) <= size_in(cs),
    decreases cs,
{
    if cs.len() > 0 {
        lemma_size_in_bounds(cs.drop_last());
        lemma_size_bounds(cs.last());
    }
}

proof fn lemma_windows_named_bound(windows: Seq<Node>)
    ensures
        windows_named(windows) <= size_in(windows),
    decreases windows.len(),
{
    if windows.len() > 0 {
        lemma_windows_named_bound(windows.drop_last());
        lemma_size_bounds(windows.last());
    }
}

proof fn lemma_named_in_windows_bound(apps: Seq<Node>)
    ensures
        named_in_windows(apps) <= size_in(apps),
    decreases apps.len(),
{
    if apps.len() > 0 {
        lemma_named_in_windows_bound(apps.drop_last());
        lemma_windows_named_bound(apps.last().children@);
        assert(size(apps.last()) == 1 + size_in(apps.last().children@));
    }
}

/// Named objects never outnumber the objects, no subtree is deeper than it is
/// large, and a bus with no application measures empty.
pub proof fn lemma_stats_are_consistent(root: Node)
    requires
        size_in(root.children@) <= usize::MAX,
    ensures
        spec_measure(root).named <= spec_measure(root).nodes,
        spec_measure(root).max_depth <= spec_measure(root).nodes,
        spec_measure(root).applications <= spec_measure(root).nodes,
        spec_measure(root).applications == 0 ==> spec_measure(root) == (TreeStats {
            applications: 0,
            nodes: 0,
            named: 0,
            max_depth: 0,
        }),
{
    lemma_named_in_windows_bound(root.children@);
    lemma_size_in_bounds(root.children@);
    lemma_apps_bound(root.children@);
}

proof fn lemma_apps_bound(cs: Seq<Node>)
    ensures
        cs.len() <= size_in(cs),
    decreases cs,
{
    if cs.len() > 0 {
        lemma_apps_bound(cs.drop_last());
        assert(size(cs.last()) >= 1);
    }
}

fn subtree_size(node: &Node) -> (res: usize)
    requires
        size(*node) <= usize::MAX,
    ensures
        res == size(*node),
    decreases *node,
{
    let mut total: usize = 1;
    let mut i: usize = 0;
    while i < node.children.len()
        invariant
            i <= node.children.len(),
            size(*node) <= usize::MAX,
            size(*node) == 1 + size_in(node.children@),
            total == 1 + size_in(node.children@.take(i as int)),
        decreases node.children.len() - i,
    {
        proof {
            let cs = node.children@;
            assert(cs.take(i + 1).drop_last() =~= cs.take(i as int));
            lemma_size_in_prefix_le(cs, i + 1);
            assert(decreases_to!(*node => node.children@[i as int]));
        }
        let child = subtree_size(&node.children[i]);
        total = total + child;
        i = i + 1;
    }
    assert(node.children@.take(node.children.len() as int) =~= node.children@);
    total
}

proof fn lemma_size_in_prefix_le(cs: Seq<Node>, k: int)
    requires
        0 <= k <= cs.len(),
    ensures
        size_in(cs.take(k)) <= size_in(cs),
    decreases cs.len() - k,
{
    if k < cs.len() {
        assert(cs.take(k + 1).drop_last() =~= cs.take(k));
        lemma_size_in_prefix_le(cs, k + 1);
    } else {
        assert(cs.take(k) =~= cs);
    }
}

fn subtree_depth(node: &Node) -> (res: usize)
    requires
        size(*node) <= usize::MAX,
    ensures
        res == depth(*node),
    decreases *node,
{
    let mut deepest: usize = 0;
    let mut i: usize = 0;
    proof {
        lemma_size_bounds(*node);
        lemma_size_in_bounds(node.children@);
    }
    while i < node.children.len()
        invariant
            i <= node.children.len(),
            size(*node) <= usize::MAX,
            size(*node) == 1 + size_in(node.children@),
            deepest == depth_in(node.children@.take(i as int)),
            depth_in(node.children@.take(i as int)) <= size_in(node.children@.take(i as int)),
        decreases node.children.len() - i,
    {
        proof {
            let cs = node.children@;
            assert(cs.take(i + 1).drop_last() =~= cs.take(i as int));
            lemma_size_in_prefix_le(cs, i + 1);
            lemma_size_in_bounds(cs.take(i + 1));
            assert(decreases_to!(*node => node.children@[i as int]));
        }
        let child = subtree_depth(&node.children[i]);
        if child > deepest {
            deepest = child;
        }
        i = i + 1;
    }
    assert(node.children@.take(node.children.len() as int) =~= node.children@);
    deepest + 1
}

fn count_named_in(cs: &Vec<Node>) -> (res: usize)
    requires
        size_in(cs@) <= usize::MAX,
    ensures
        res == named_in(cs@),
    decreases cs@,
{
    let mut total: usize = 0;
    let mut i: usize = 0;
    while i < cs.len()
        invariant
            i <= cs.len(),
            size_in(cs@) <= usize::MAX,
            total == named_in(cs@.take(i as int)),
        decreases cs.len() - i,
    {
        proof {
            assert(cs@.take(i + 1).drop_last() =~= cs@.take(i as int));
            lemma_size_in_prefix_le(cs@, i + 1);
            lemma_size_in_bounds(cs@.take(i + 1));
            lemma_size_bounds(cs@[i as int]);
            assert(decreases_to!(cs@ => cs@[i as int]));
            assert(decreases_to!(cs@[i as int] => cs@[i as int].children@));
        }
        let child = &cs[i];
        let mark: usize = if child.name.as_str().is_empty() {
            0
        } else {
            1
        };
        let below = count_named_in(&child.children);
        total = total + mark + below;
        i = i + 1;
    }
    assert(cs@.take(cs.len() as int) =~= cs@);
    total
}

/// Measure what the application published, given the registry's root node.
pub fn measure(root: &Node) -> (stats: TreeStats)
    requires
        size_in(root.children@) <= usize::MAX,
    ensures
        stats == spec_measure(*root),
{
    let apps = &root.children;
    let mut nodes: usize = 0;
    let mut named: usize = 0;
    let mut deepest: usize = 0;
    let mut i: usize = 0;
    proof {
        lemma_named_in_windows_bound(apps@);
    }
    while i < apps.len()
        invariant
            i <= apps.len(),
            apps@ == root.children@,
            size_in(apps@) <= usize::MAX,
            nodes == size_in(apps@.take(i as int)),
            named == named_in_windows(apps@.take(i as int)),
            deepest == depth_in(apps@.take(i as int)),
        decreases apps.len() - i,
    {
        proof {
            assert(apps@.take(i + 1).drop_last() =~= apps@.take(i as int));
            lemma_size_in_prefix_le(apps@, i + 1);
            lemma_named_in_windows_bound(apps@.take(i + 1));
            lemma_size_in_bounds(apps@.take(i + 1));
        }
        let app = &apps[i];
        proof {
            assert(size_in(apps@.take(i + 1)) == size_in(apps@.take(i as int)) + size(*app));
        }
        nodes = nodes + subtree_size(app);
        let d = subtree_depth(app);
        if d > deepest {
            deepest = d;
        }
        let windows = &app.children;
        let mut j: usize = 0;
        let ghost before = named;
        proof {
            lemma_windows_named_bound(windows@);
        }
        while j < windows.len()
            invariant
                j <= windows.len(),
                windows@ == app.children@,
                size(*app) <= usize::MAX,
                before + windows_named(windows@) <= usize::MAX,
                named == before + windows_named(windows@.take(j as int)),
            decreases windows.len() - j,
        {
            proof {
                assert(windows@.take(j + 1).drop_last() =~= windows@.take(j as int));
                lemma_windows_prefix_le(windows@, j + 1);
                lemma_size_in_prefix_le(windows@, j + 1);
                lemma_size_bounds(windows@[j as int]);
                lemma_size_in_le_app(*app, j as int);
            }
            named = named + count_named_in(&windows[j].children);
            j = j + 1;
        }
        assert(windows@.take(windows.len() as int) =~= windows@);
        i = i + 1;
    }
    assert(apps@.take(apps.len() as int) =~= apps@);
    TreeStats { applications: apps.len(), nodes, named, max_depth: deepest }
}

proof fn lemma_windows_prefix_le(ws: Seq<Node>, k: int)
    requires
        0 <= k <= ws.len(),
    ensures
        windows_named(ws.take(k)) <= windows_named(ws),
    decreases ws.len() - k,
{
    if k < ws.len() {
        assert(ws.take(k + 1).drop_last() =~= ws.take(k));
        lemma_windows_prefix_le(ws, k + 1);
    } else {
        assert(ws.take(k) =~= ws);
    }
}

proof fn lemma_size_in_le_app(app: Node, j: int)
    requires
        0 <= j < app.children@.len(),
    ensures
        size_in(app.children@[j].children@) < size(app),
{
    let ws = app.children@;
    lemma_size_in_prefix_le(ws, j + 1);
    assert(ws.take(j + 1).drop_last() =~= ws.take(j));
    assert(ws.take(j + 1).last() == ws[j]);
    assert(size_in(ws.take(j + 1)) == size_in(ws.take(j)) + size(ws[j]));
    assert(size(ws[j]) == 1 + size_in(ws[j].children@));
    assert(size(app) == 1 + size_in(ws));
}


/// The reference that addresses an accessible object in a later request:
/// its bus name and object path.
pub fn node_reference(destination: &str, path: &str) -> (r: String)
    ensures
        r@ == destination@ + "|"@ + path@,
{
    let mut r = String::from_str(destination);
    r.append("|");
    r.append(path);
    r
}

/// The deepest level of a tree that is read.
pub const MAX_DEPTH: usize = 32;

/// The most objects one reading of a tree visits, so a pathological tree
/// cannot exhaust memory.
pub const MAX_NODES: usize = 5000;

/// The budget left for an object's children once the object itself is read
/// out of `budget`.
pub fn budget_after(budget: usize) -> (res: usize)
    ensures
        res == (if budget > 0 {
            budget - 1
        } else {
            0
        }),
{
    if budget > 0 {
        budget - 1
    } else {
        0
    }
}

/// Whether the children of an object at `depth` are read: the tree is not
/// yet too deep, and budget is left.
pub fn descend(depth: usize, remaining: usize) -> (res: bool)
    ensures
        res == (depth < MAX_DEPTH && remaining > 0),
{
    depth < MAX_DEPTH && remaining > 0
}

} // verus!
