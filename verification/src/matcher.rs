//! Matching a path against the route tree.
//!
//! Matching goes down from the root, one level at a time. At each level the
//! children are tried in the order in which they were declared, and the first
//! whose pattern matches is taken for good: a later failure below it does not
//! bring the search back to its siblings.

use crate::path::{segments_of, split_path, texts};
use crate::route::{is_edge, node_ok, RouteNode, RouteTree, Segment};
use vstd::prelude::*;

verus! {

/// One captured parameter: the name a pattern gave it, and the segment found.
#[derive(Clone, Debug, PartialEq, Eq)]
pub struct Capture {
    pub name: String,
    pub value: String,
}

/// A successful match.
#[derive(Clone, Debug, PartialEq, Eq)]
pub struct MatchResult {
    /// The matched nodes, from the root down to the deepest.
    pub chain: Vec<usize>,
    /// The captured parameters, in the order in which their names first came.
    pub params: Vec<Capture>,
}

/// What a match is, as plain values.
pub ghost struct MatchView {
    pub chain: Seq<usize>,
    pub params: Seq<(Seq<char>, Seq<char>)>,
}

/// The names and values of a list of captures.
pub open spec fn bindings(v: Seq<Capture>) -> Seq<(Seq<char>, Seq<char>)> {
    Seq::new(v.len(), |i: int| (v[i].name@, v[i].value@))
}

impl View for MatchResult {
    type V = MatchView;

    open spec fn view(&self) -> MatchView {
        MatchView { chain: self.chain@, params: bindings(self.params@) }
    }
}

/// Where the name `name` stands among `params`, looking from `from` on.
pub open spec fn key_at(params: Seq<(Seq<char>, Seq<char>)>, name: Seq<char>, from: nat) -> Option<
    nat,
>
    decreases params.len() - from,
{
    if from >= params.len() {
        None
    } else if params[from as int].0 == name {
        Some(from)
    } else {
        key_at(params, name, from + 1)
    }
}

/// `params` with `name` bound to `value`: a name already there keeps its
/// place and takes the new value, a new name goes to the end.
pub open spec fn bind(params: Seq<(Seq<char>, Seq<char>)>, name: Seq<char>, value: Seq<char>) -> Seq<
    (Seq<char>, Seq<char>),
> {
    match key_at(params, name, 0) {
        Some(j) => params.update(j as int, (name, value)),
        None => params.push((name, value)),
    }
}

/// No name stands twice.
pub open spec fn distinct_keys(params: Seq<(Seq<char>, Seq<char>)>) -> bool {
    forall|i: int, j: int| 0 <= i < j < params.len() ==> params[i].0 != params[j].0
}

/// The first of the children `kids`, from place `from` on, whose pattern
/// matches where the segments `rest` remain.
pub open spec fn first_match(
    nodes: Seq<RouteNode>,
    kids: Seq<usize>,
    from: nat,
    rest: Seq<Seq<char>>,
) -> Option<usize>
    decreases kids.len() - from,
{
    if from >= kids.len() {
        None
    } else if nodes[kids[from as int] as int].segment.matches(rest) {
        Some(kids[from as int])
    } else {
        first_match(nodes, kids, from + 1, rest)
    }
}

/// The match so far, extended by the node `id`, whose pattern `seg` matched
/// where `rest` remained.
pub open spec fn extend(found: MatchView, id: usize, seg: Segment, rest: Seq<Seq<char>>) -> MatchView {
    MatchView {
        chain: found.chain.push(id),
        params: match seg {
            Segment::Param(name) => bind(found.params, name@, rest[0]),
            _ => found.params,
        },
    }
}

/// The match that going down from the node `at` ends in, where the segments
/// `rest` remain and `found` was matched above.
///
/// Where no child matches, the match is complete if the path is used up, and
/// fails if segments are left over.
pub open spec fn descend(
    nodes: Seq<RouteNode>,
    at: usize,
    rest: Seq<Seq<char>>,
    found: MatchView,
) -> Option<MatchView>
    decreases nodes.len() - at,
{
    match first_match(nodes, nodes[at as int].children@, 0, rest) {
        None => if rest.len() == 0 {
            Some(found)
        } else {
            None
        },
        Some(child) => if at < child < nodes.len() {
            let seg = nodes[child as int].segment;
            descend(nodes, child, rest.skip(seg.width() as int), extend(found, child, seg, rest))
        } else {
            None
        },
    }
}

/// The match that consists of the root alone.
pub open spec fn root_only() -> MatchView {
    MatchView { chain: seq![0usize], params: Seq::empty() }
}

/// Whether the node at `child` is one of the children of the node at
/// `parent`.
pub open spec fn child_of(nodes: Seq<RouteNode>, parent: usize, child: usize) -> bool {
    exists|j: int| is_edge(nodes, parent as int, j, child as int)
}

/// What is true of every match among `nodes`: the chain starts at the root,
/// stays inside the tree, goes from each node to one of its children, and so
/// strictly upward in position; and no parameter name stands twice.
pub open spec fn match_ok(m: MatchView, nodes: Seq<RouteNode>) -> bool {
    &&& m.chain.len() > 0
    &&& m.chain[0] == 0
    &&& forall|i: int| 0 <= i < m.chain.len() ==> #[trigger] m.chain[i] < nodes.len()
    &&& forall|i: int| 0 < i < m.chain.len() ==> child_of(nodes, m.chain[i - 1], #[trigger] m.chain[i])
    &&& forall|i: int, j: int| 0 <= i < j < m.chain.len() ==> m.chain[i] < m.chain[j]
    &&& distinct_keys(m.params)
}

/// The match of a path among the nodes of a tree, if it has one.
pub open spec fn matched(nodes: Seq<RouteNode>, path: Seq<char>) -> Option<MatchView> {
    descend(nodes, 0, segments_of(path), root_only())
}

impl RouteTree {
    /// The match of a path in this tree, if it has one.
    pub open spec fn matched(&self, path: Seq<char>) -> Option<MatchView> {
        matched(self.nodes(), path)
    }
}

/// A name that `key_at` does not find is nowhere from `from` on, and one that
/// it finds is found at its first place.
pub proof fn lemma_key_at(params: Seq<(Seq<char>, Seq<char>)>, name: Seq<char>, from: nat)
    ensures
        match key_at(params, name, from) {
            Some(j) => from <= j < params.len() && params[j as int].0 == name,
            None => forall|i: int| from <= i < params.len() ==> params[i].0 != name,
        },
    decreases params.len() - from,
{
    if from < params.len() && params[from as int].0 != name {
        lemma_key_at(params, name, from + 1);
    }
}

/// Binding a name keeps the names distinct.
pub proof fn lemma_bind_distinct(params: Seq<(Seq<char>, Seq<char>)>, name: Seq<char>, value: Seq<char>)
    requires
        distinct_keys(params),
    ensures
        distinct_keys(bind(params, name, value)),
{
    lemma_key_at(params, name, 0);
}

/// A child that `first_match` picks is one of the children, and its pattern
/// matches.
pub proof fn lemma_first_match(nodes: Seq<RouteNode>, kids: Seq<usize>, from: nat, rest: Seq<Seq<char>>)
    ensures
        match first_match(nodes, kids, from, rest) {
            Some(child) => exists|j: int|
                from <= j < kids.len() && kids[j] == child && nodes[child as int].segment.matches(
                    rest,
                ),
            None => true,
        },
    decreases kids.len() - from,
{
    if from < kids.len() && !nodes[kids[from as int] as int].segment.matches(rest) {
        lemma_first_match(nodes, kids, from + 1, rest);
    }
}

/// Going down keeps a match in order.
pub proof fn lemma_descend_ok(nodes: Seq<RouteNode>, at: usize, rest: Seq<Seq<char>>, found: MatchView)
    requires
        match_ok(found, nodes),
        found.chain.last() == at,
    ensures
        descend(nodes, at, rest, found) matches Some(m) ==> match_ok(m, nodes),
    decreases nodes.len() - at,
{
    let kids = nodes[at as int].children@;
    match first_match(nodes, kids, 0, rest) {
        None => {},
        Some(child) => {
            if at < child < nodes.len() {
                let seg = nodes[child as int].segment;
                let next = extend(found, child, seg, rest);
                let last = found.chain.len() as int;
                match seg {
                    Segment::Param(name) => {
                        lemma_bind_distinct(found.params, name@, rest[0]);
                    },
                    _ => {},
                }
                assert forall|i: int, j: int| 0 <= i < j < next.chain.len() implies next.chain[i]
                    < next.chain[j] by {
                    if j == last && i < last - 1 {
                        assert(found.chain[i] < found.chain[last - 1]);
                    }
                }
                assert forall|i: int| 0 < i < next.chain.len() implies child_of(
                    nodes,
                    next.chain[i - 1],
                    #[trigger] next.chain[i],
                ) by {
                    if i == last {
                        lemma_first_match(nodes, kids, 0, rest);
                        let j = choose|j: int|
                            0 <= j < kids.len() && kids[j] == child && nodes[child as int].segment.matches(
                                rest,
                            );
                        assert(is_edge(nodes, at as int, j, child as int));
                    } else {
                        assert(child_of(nodes, found.chain[i - 1], found.chain[i]));
                    }
                }
                lemma_descend_ok(nodes, child, rest.skip(seg.width() as int), next);
            }
        },
    }
}

/// Every match of a path among the nodes of a tree is in order.
pub proof fn lemma_matched_ok(nodes: Seq<RouteNode>, path: Seq<char>)
    requires
        nodes.len() > 0,
    ensures
        matched(nodes, path) matches Some(m) ==> match_ok(m, nodes),
{
    lemma_descend_ok(nodes, 0, segments_of(path), root_only());
}

/// Whether `seg` matches at the place `pos` of the segments `segs`.
fn segment_matches(seg: &Segment, segs: &Vec<String>, pos: usize) -> (yes: bool)
    requires
        pos <= segs@.len(),
    ensures
        yes == seg.matches(texts(segs@).skip(pos as int)),
{
    match seg {
        Segment::Index => pos == segs.len(),
        Segment::Literal(text) => pos < segs.len() && segs[pos] == *text,
        Segment::Param(_) => pos < segs.len() && !segs[pos].as_str().is_empty(),
    }
}

/// Binds `name` to `value` in `params`.
fn bind_param(params: &mut Vec<Capture>, name: &String, value: &String)
    ensures
        bindings(final(params)@) == bind(bindings(old(params)@), name@, value@),
{
    let ghost before = bindings(params@);
    let mut j: usize = 0;
    while j < params.len()
        invariant
            j <= params@.len(),
            before == bindings(old(params)@),
            bindings(params@) == before,
            key_at(before, name@, 0) == key_at(before, name@, j as nat),
        decreases params@.len() - j,
    {
        assert(before[j as int].0 == params@[j as int].name@);
        if params[j].name == *name {
            params.set(j, Capture { name: name.clone(), value: value.clone() });
            assert(bindings(params@) =~= before.update(j as int, (name@, value@)));
            return ;
        }
        j = j + 1;
    }
    params.push(Capture { name: name.clone(), value: value.clone() });
    assert(bindings(params@) =~= before.push((name@, value@)));
}

impl RouteTree {
    /// The first child of the node `at` whose pattern matches at the place
    /// `pos` of `segs`.
    fn first_matching_child(&self, at: usize, segs: &Vec<String>, pos: usize) -> (hit: Option<usize>)
        requires
            self.wf(),
            at < self.nodes().len(),
            pos <= segs@.len(),
        ensures
            hit == first_match(
                self.nodes(),
                self.nodes()[at as int].children@,
                0,
                texts(segs@).skip(pos as int),
            ),
            hit matches Some(child) ==> at < child < self.nodes().len(),
    {
        let node = self.node(at);
        let ghost rest = texts(segs@).skip(pos as int);
        let mut j: usize = 0;
        while j < node.children.len()
            invariant
                self.wf(),
                at < self.nodes().len(),
                *node == self.nodes()[at as int],
                pos <= segs@.len(),
                rest == texts(segs@).skip(pos as int),
                j <= node.children@.len(),
                first_match(self.nodes(), node.children@, 0, rest) == first_match(
                    self.nodes(),
                    node.children@,
                    j as nat,
                    rest,
                ),
            decreases node.children@.len() - j,
        {
            let child = node.children[j];
            assert(node_ok(self.nodes(), at as int));
            assert(at < node.children@[j as int] < self.nodes().len());
            if segment_matches(&self.node(child).segment, segs, pos) {
                return Some(child);
            }
            j = j + 1;
        }
        None
    }

    /// Matches the segments of a path against the tree.
    pub fn match_segments(&self, segs: &Vec<String>) -> (found: Option<MatchResult>)
        requires
            self.wf(),
        ensures
            match found {
                Some(m) => descend(self.nodes(), 0, texts(segs@), root_only()) == Some(m@),
                None => descend(self.nodes(), 0, texts(segs@), root_only()) is None,
            },
    {
        let ghost all = texts(segs@);
        let mut chain: Vec<usize> = Vec::new();
        chain.push(0);
        let mut params: Vec<Capture> = Vec::new();
        let mut at: usize = 0;
        let mut pos: usize = 0;
        assert(chain@ =~= seq![0usize]);
        assert(bindings(params@) =~= Seq::empty());
        assert(all.skip(0) =~= all);
        loop
            invariant
                self.wf(),
                all == texts(segs@),
                at < self.nodes().len(),
                pos <= segs@.len(),
                descend(self.nodes(), 0, all, root_only()) == descend(
                    self.nodes(),
                    at,
                    all.skip(pos as int),
                    MatchView { chain: chain@, params: bindings(params@) },
                ),
            decreases self.nodes().len() - at,
        {
            let ghost rest = all.skip(pos as int);
            let ghost found = MatchView { chain: chain@, params: bindings(params@) };
            match self.first_matching_child(at, segs, pos) {
                None => {
                    if pos == segs.len() {
                        return Some(MatchResult { chain, params });
                    } else {
                        return None;
                    }
                },
                Some(child) => {
                    let node = self.node(child);
                    let ghost seg = node.segment;
                    proof {
                        lemma_first_match(self.nodes(), self.nodes()[at as int].children@, 0, rest);
                        assert(seg.matches(rest));
                        assert(rest.len() == segs.len() - pos);
                    }
                    match &node.segment {
                        Segment::Index => {},
                        Segment::Literal(_) => {
                            pos = pos + 1;
                        },
                        Segment::Param(name) => {
                            bind_param(&mut params, name, &segs[pos]);
                            pos = pos + 1;
                        },
                    }
                    chain.push(child);
                    at = child;
                    proof {
                        assert(rest.skip(seg.width() as int) =~= all.skip(pos as int));
                        assert(MatchView { chain: chain@, params: bindings(params@) } == extend(
                            found,
                            child,
                            seg,
                            rest,
                        ));
                    }
                },
            }
        }
    }
}

/// Matches a path against the tree: the chain of nodes from the root to the
/// deepest that matches, with the parameters captured on the way, or nothing
/// where the path matches no route.
pub fn match_path(tree: &RouteTree, path: &str) -> (found: Option<MatchResult>)
    requires
        tree.wf(),
    ensures
        match found {
            Some(m) => tree.matched(path@) == Some(m@) && match_ok(m@, tree.nodes()),
            None => tree.matched(path@) is None,
        },
{
    let segs = split_path(path);
    proof {
        lemma_matched_ok(tree.nodes(), path@);
    }
    tree.match_segments(&segs)
}

} // verus!
