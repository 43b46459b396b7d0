//! The route tree: a fixed hierarchy of path patterns.
//!
//! The nodes of a tree live in one list and name each other by position. The
//! root stands first, and every child stands after its parent, so a walk from
//! the root always ends.

use vstd::prelude::*;

verus! {

/// Names the module that draws a view. Several nodes may name the same one.
#[derive(Clone, Copy, Debug, PartialEq, Eq, Structural)]
pub struct ViewRef(pub u64);

/// The pattern that a node holds against one level of a path.
#[derive(Clone, Debug, PartialEq, Eq)]
pub enum Segment {
    /// Matches where the path has no segment left at this level.
    Index,
    /// Matches the segment that equals this text.
    Literal(String),
    /// Matches any one segment, and keeps it under this name.
    Param(String),
}

/// The precondition that guards a subtree.
#[derive(Clone, Copy, Debug, PartialEq, Eq, Structural)]
pub enum GateKind {
    /// The one check that the whole application waits for.
    Bootstrap,
    /// The check of the current session, made anew for every token.
    Session,
}

/// What can go wrong with routes.
#[derive(Clone, Copy, Debug, PartialEq, Eq, Structural)]
pub enum RouteError {
    /// Some path matches nothing, and no view for that case was named.
    NoRouteMatch,
    /// Redirects were followed more often than the bound allows.
    RedirectLoopExceeded,
    /// The module of a lazy view did not load.
    LazyLoadFailure,
    /// A gate's check said no, or broke down.
    GateCheckFailure,
    /// The nodes handed in do not form a route tree.
    InvalidTree,
}

/// One node of the route tree.
#[derive(Clone, Debug, PartialEq, Eq)]
pub struct RouteNode {
    /// The pattern this node matches.
    pub segment: Segment,
    /// The positions of the children, in the order in which they are tried.
    pub children: Vec<usize>,
    /// Where navigation goes on instead, if this node only redirects.
    pub redirect: Option<String>,
    /// The view to load when this node is first reached.
    pub lazy_view: Option<ViewRef>,
    /// What guards this node and all below it.
    pub gate: Option<GateKind>,
}

impl Segment {
    /// Whether the pattern matches at a level where the segments `rest` remain.
    pub open spec fn matches(&self, rest: Seq<Seq<char>>) -> bool {
        match self {
            Segment::Index => rest.len() == 0,
            Segment::Literal(text) => rest.len() > 0 && rest[0] == text@,
            Segment::Param(_) => rest.len() > 0 && rest[0].len() > 0,
        }
    }

    /// How many segments a match of the pattern uses up.
    pub open spec fn width(&self) -> nat {
        match self {
            Segment::Index => 0,
            _ => 1,
        }
    }

    /// Whether this is the index pattern.
    pub fn is_index(&self) -> (yes: bool)
        ensures
            yes == (self is Index),
    {
        match self {
            Segment::Index => true,
            _ => false,
        }
    }
}

/// How many of the nodes at the positions `kids` hold the index pattern.
pub open spec fn index_count(nodes: Seq<RouteNode>, kids: Seq<usize>) -> nat
    decreases kids.len(),
{
    if kids.len() == 0 {
        0
    } else {
        let before = index_count(nodes, kids.drop_last());
        if nodes[kids.last() as int].segment is Index {
            before + 1
        } else {
            before
        }
    }
}

/// What is asked of the node at position `i`: its children stand after it,
/// a redirect neither has children nor draws a view, and a parent has exactly
/// one index child to show by default.
pub open spec fn node_ok(nodes: Seq<RouteNode>, i: int) -> bool {
    let node = nodes[i];
    &&& forall|j: int|
        0 <= j < node.children@.len() ==> i < #[trigger] node.children@[j] < nodes.len()
    &&& (node.redirect is Some ==> node.children@.len() == 0 && node.lazy_view is None)
    &&& (node.children@.len() > 0 ==> index_count(nodes, node.children@) == 1)
}

/// Whether the node at `child` stands at place `j` among the children of the
/// node at `parent`.
pub open spec fn is_edge(nodes: Seq<RouteNode>, parent: int, j: int, child: int) -> bool {
    &&& 0 <= parent < nodes.len()
    &&& 0 <= j < nodes[parent].children@.len()
    &&& nodes[parent].children@[j] == child
}

/// Whether the node at `child` is the child of a node.
pub open spec fn has_parent(nodes: Seq<RouteNode>, child: int) -> bool {
    exists|p: int, j: int| is_edge(nodes, p, j, child)
}

/// Every node but the root is the child of a node, and none is a child twice.
pub open spec fn one_parent_each(nodes: Seq<RouteNode>) -> bool {
    &&& forall|c: int| 0 < c < nodes.len() ==> #[trigger] has_parent(nodes, c)
    &&& forall|p: int, j: int, q: int, k: int, c: int|
        is_edge(nodes, p, j, c) && is_edge(nodes, q, k, c) ==> p == q && j == k
}

/// What makes a list of nodes a route tree: a root, every node in order, and
/// one parent for every node but the root.
pub open spec fn nodes_ok(nodes: Seq<RouteNode>) -> bool {
    &&& nodes.len() > 0
    &&& forall|i: int| 0 <= i < nodes.len() ==> node_ok(nodes, i)
    &&& one_parent_each(nodes)
}

/// A route tree, fixed once built.
#[derive(Clone, Debug, PartialEq, Eq)]
pub struct RouteTree {
    nodes: Vec<RouteNode>,
    not_found: ViewRef,
}

impl RouteTree {
    /// The nodes, the root first.
    pub closed spec fn nodes(&self) -> Seq<RouteNode> {
        self.nodes@
    }

    /// The view for paths that match nothing.
    pub closed spec fn fallback(&self) -> ViewRef {
        self.not_found
    }

    /// The invariant of every tree.
    pub open spec fn wf(&self) -> bool {
        nodes_ok(self.nodes())
    }

    /// Builds a tree from its nodes, the root first, and the view to show
    /// for a path that matches nothing.
    ///
    /// Nodes that do not form a tree are refused as `InvalidTree`. No finite
    /// tree matches every path, so one without a not-found view is refused
    /// as `NoRouteMatch`.
    pub fn new(nodes: Vec<RouteNode>, not_found: Option<ViewRef>) -> (built: Result<
        RouteTree,
        RouteError,
    >)
        ensures
            match built {
                Ok(tree) => {
                    &&& nodes_ok(nodes@)
                    &&& not_found == Some(tree.fallback())
                    &&& tree.nodes() == nodes@
                    &&& tree.wf()
                },
                Err(e) => {
                    &&& e == RouteError::InvalidTree <==> !nodes_ok(nodes@)
                    &&& e == RouteError::NoRouteMatch <==> nodes_ok(nodes@) && not_found is None
                    &&& e == RouteError::InvalidTree || e == RouteError::NoRouteMatch
                },
            },
    {
        if !check_nodes(&nodes) {
            return Err(RouteError::InvalidTree);
        }
        match not_found {
            None => Err(RouteError::NoRouteMatch),
            Some(view) => Ok(RouteTree { nodes, not_found: view }),
        }
    }

    /// How many nodes the tree has.
    pub fn len(&self) -> (n: usize)
        ensures
            n == self.nodes().len(),
    {
        self.nodes.len()
    }

    /// The node at position `id`.
    pub fn node(&self, id: usize) -> (node: &RouteNode)
        requires
            id < self.nodes().len(),
        ensures
            *node == self.nodes()[id as int],
    {
        &self.nodes[id]
    }

    /// The view for paths that match nothing.
    pub fn not_found(&self) -> (view: ViewRef)
        ensures
            view == self.fallback(),
    {
        self.not_found
    }
}

/// Whether the node at position `i` is in order.
fn check_node(nodes: &Vec<RouteNode>, i: usize) -> (ok: bool)
    requires
        i < nodes@.len(),
    ensures
        ok == node_ok(nodes@, i as int),
{
    let node = &nodes[i];
    let count = node.children.len();
    let mut defaults: usize = 0;
    let mut j: usize = 0;
    while j < count
        invariant
            i < nodes@.len(),
            node == nodes@[i as int],
            count == node.children@.len(),
            j <= count,
            defaults <= j,
            defaults == index_count(nodes@, node.children@.take(j as int)),
            forall|k: int| 0 <= k < j ==> i < #[trigger] node.children@[k] < nodes@.len(),
        decreases count - j,
    {
        let child = node.children[j];
        if child <= i || child >= nodes.len() {
            return false;
        }
        proof {
            let upto = node.children@.take(j as int + 1);
            assert(upto.drop_last() =~= node.children@.take(j as int));
            assert(upto.last() == child);
        }
        if nodes[child].segment.is_index() {
            defaults = defaults + 1;
        }
        j = j + 1;
    }
    assert(node.children@.take(count as int) =~= node.children@);
    if node.redirect.is_some() && (count > 0 || node.lazy_view.is_some()) {
        return false;
    }
    count == 0 || defaults == 1
}

/// Whether the edge from `p` at place `j` comes before the place `at` of the
/// node `upto`, going through the nodes in order and through the children
/// of each in order.
spec fn comes_before(p: int, j: int, upto: int, at: int) -> bool {
    p < upto || (p == upto && j < at)
}

/// Whether every node but the root has one parent.
fn check_parents(nodes: &Vec<RouteNode>) -> (ok: bool)
    requires
        forall|i: int| 0 <= i < nodes@.len() ==> node_ok(nodes@, i),
    ensures
        ok == one_parent_each(nodes@),
{
    let count = nodes.len();
    let mut seen: Vec<bool> = Vec::new();
    let mut c: usize = 0;
    while c < count
        invariant
            c <= count,
            seen@.len() == c,
            forall|k: int| 0 <= k < c ==> !seen@[k],
        decreases count - c,
    {
        seen.push(false);
        c = c + 1;
    }
    let mut p: usize = 0;
    while p < count
        invariant
            count == nodes@.len(),
            p <= count,
            seen@.len() == count,
            forall|i: int| 0 <= i < nodes@.len() ==> node_ok(nodes@, i),
            forall|k: int|
                0 <= k < count ==> (#[trigger] seen@[k] <==> exists|q: int, j: int|
                    comes_before(q, j, p as int, 0) && is_edge(nodes@, q, j, k)),
            forall|q: int, j: int, r: int, k: int, c: int|
                comes_before(q, j, p as int, 0) && comes_before(r, k, p as int, 0) && is_edge(
                    nodes@,
                    q,
                    j,
                    c,
                ) && is_edge(nodes@, r, k, c) ==> q == r && j == k,
        decreases count - p,
    {
        let node = &nodes[p];
        let mut at: usize = 0;
        while at < node.children.len()
            invariant
                count == nodes@.len(),
                p < count,
                node == nodes@[p as int],
                at <= node.children@.len(),
                seen@.len() == count,
                forall|i: int| 0 <= i < nodes@.len() ==> node_ok(nodes@, i),
                forall|k: int|
                    0 <= k < count ==> (#[trigger] seen@[k] <==> exists|q: int, j: int|
                        comes_before(q, j, p as int, at as int) && is_edge(nodes@, q, j, k)),
                forall|q: int, j: int, r: int, k: int, c: int|
                    comes_before(q, j, p as int, at as int) && comes_before(r, k, p as int, at as int)
                        && is_edge(nodes@, q, j, c) && is_edge(nodes@, r, k, c) ==> q == r && j == k,
            decreases node.children@.len() - at,
        {
            let child = node.children[at];
            assert(node_ok(nodes@, p as int));
            assert(p < node.children@[at as int] < nodes@.len());
            assert(is_edge(nodes@, p as int, at as int, child as int));
            if seen[child] {
                proof {
                    let (q, j) = choose|q: int, j: int|
                        comes_before(q, j, p as int, at as int) && is_edge(nodes@, q, j, child as int);
                    assert(is_edge(nodes@, q, j, child as int));
                    assert(!(q == p && j == at));
                }
                return false;
            }
            let ghost before = seen@;
            seen.set(child, true);
            proof {
                assert forall|k: int| 0 <= k < count implies (#[trigger] seen@[k] <==> exists|
                    q: int,
                    j: int,
                |
                    comes_before(q, j, p as int, at as int + 1) && is_edge(nodes@, q, j, k)) by {
                    if k == child {
                        assert(comes_before(p as int, at as int, p as int, at as int + 1));
                    } else if before[k] {
                        let (q, j) = choose|q: int, j: int|
                            comes_before(q, j, p as int, at as int) && is_edge(nodes@, q, j, k);
                        assert(comes_before(q, j, p as int, at as int + 1) && is_edge(nodes@, q, j, k));
                    } else {
                        assert forall|q: int, j: int|
                            comes_before(q, j, p as int, at as int + 1) implies !is_edge(
                            nodes@,
                            q,
                            j,
                            k,
                        ) by {
                            if comes_before(q, j, p as int, at as int) {
                            }
                        }
                    }
                }
                assert forall|q: int, j: int, r: int, k: int, c: int|
                    comes_before(q, j, p as int, at as int + 1) && comes_before(
                        r,
                        k,
                        p as int,
                        at as int + 1,
                    ) && is_edge(nodes@, q, j, c) && is_edge(nodes@, r, k, c) implies q == r && j
                    == k by {
                    let q_old = comes_before(q, j, p as int, at as int);
                    let r_old = comes_before(r, k, p as int, at as int);
                    if q_old && r_old {
                    } else if q_old {
                        assert(r == p && k == at);
                        assert(is_edge(nodes@, q, j, child as int));
                        assert(before[child as int]);
                    } else if r_old {
                        assert(q == p && j == at);
                        assert(is_edge(nodes@, r, k, child as int));
                        assert(before[child as int]);
                    }
                }
            }
            at = at + 1;
        }
        proof {
            let len = node.children@.len() as int;
            assert forall|k: int| 0 <= k < count implies (#[trigger] seen@[k] <==> exists|
                q: int,
                j: int,
            |
                comes_before(q, j, p as int + 1, 0) && is_edge(nodes@, q, j, k)) by {
                if seen@[k] {
                    let (q, j) = choose|q: int, j: int|
                        comes_before(q, j, p as int, len) && is_edge(nodes@, q, j, k);
                    assert(comes_before(q, j, p as int + 1, 0) && is_edge(nodes@, q, j, k));
                } else {
                    assert forall|q: int, j: int| comes_before(q, j, p as int + 1, 0) implies !is_edge(
                        nodes@,
                        q,
                        j,
                        k,
                    ) by {
                        if is_edge(nodes@, q, j, k) {
                            assert(comes_before(q, j, p as int, len));
                        }
                    }
                }
            }
            assert forall|q: int, j: int, r: int, k: int, c: int|
                comes_before(q, j, p as int + 1, 0) && comes_before(r, k, p as int + 1, 0) && is_edge(
                    nodes@,
                    q,
                    j,
                    c,
                ) && is_edge(nodes@, r, k, c) implies q == r && j == k by {
                assert(comes_before(q, j, p as int, len));
                assert(comes_before(r, k, p as int, len));
            }
        }
        p = p + 1;
    }
    let mut c: usize = 1;
    while c < count
        invariant
            count == nodes@.len(),
            1 <= c,
            seen@.len() == count,
            forall|k: int|
                0 <= k < count ==> (#[trigger] seen@[k] <==> exists|q: int, j: int|
                    comes_before(q, j, count as int, 0) && is_edge(nodes@, q, j, k)),
            forall|k: int| 0 < k < c && k < count ==> #[trigger] has_parent(nodes@, k),
            forall|q: int, j: int, r: int, k: int, c: int|
                comes_before(q, j, count as int, 0) && comes_before(r, k, count as int, 0) && is_edge(
                    nodes@,
                    q,
                    j,
                    c,
                ) && is_edge(nodes@, r, k, c) ==> q == r && j == k,
        decreases count - c,
    {
        if !seen[c] {
            assert forall|q: int, j: int| !is_edge(nodes@, q, j, c as int) by {
                if is_edge(nodes@, q, j, c as int) {
                    assert(comes_before(q, j, count as int, 0));
                }
            }
            assert(!has_parent(nodes@, c as int));
            return false;
        }
        proof {
            let (q, j) = choose|q: int, j: int|
                comes_before(q, j, count as int, 0) && is_edge(nodes@, q, j, c as int);
            assert(is_edge(nodes@, q, j, c as int));
            assert(has_parent(nodes@, c as int));
        }
        c = c + 1;
    }
    proof {
        assert forall|q: int, j: int, r: int, k: int, c: int|
            is_edge(nodes@, q, j, c) && is_edge(nodes@, r, k, c) implies q == r && j == k by {
            assert(comes_before(q, j, count as int, 0));
            assert(comes_before(r, k, count as int, 0));
        }
    }
    true
}

/// Whether the nodes form a route tree.
fn check_nodes(nodes: &Vec<RouteNode>) -> (ok: bool)
    ensures
        ok == nodes_ok(nodes@),
{
    if nodes.len() == 0 {
        return false;
    }
    let mut i: usize = 0;
    while i < nodes.len()
        invariant
            i <= nodes@.len(),
            forall|k: int| 0 <= k < i ==> node_ok(nodes@, k),
        decreases nodes@.len() - i,
    {
        if !check_node(nodes, i) {
            return false;
        }
        i = i + 1;
    }
    check_parents(nodes)
}

} // verus!
