//! Planning a navigation: from a path and the state of gates and slots to the
//! place where rendering stops.
//!
//! Planning only reads. It matches the path, walks the matched chain from the
//! root down, follows redirects within the bound, and stops at the first node
//! that cannot render yet.

use crate::gate::{GateModel, GateState};
use crate::lazy::{LazySlot, ModuleId};
use crate::matcher::matched;
use crate::route::{GateKind, RouteNode, ViewRef};
use vstd::prelude::*;

verus! {

/// One level of what is rendered: a loaded view, with the next level inside.
#[derive(Clone, Copy, Debug, PartialEq, Eq, Structural)]
pub struct Layer {
    /// The node that the view belongs to.
    pub node: usize,
    /// The view that the node names.
    pub view: ViewRef,
    /// The module that was loaded for it.
    pub module: ModuleId,
}

/// Why the walk down one matched chain ended.
#[derive(Clone, Copy, Debug, PartialEq, Eq, Structural)]
pub enum Halt {
    /// Every node of the chain can render.
    Through,
    /// The node redirects.
    Redirect(usize),
    /// The session gate of the node is not satisfied.
    Gate(usize),
    /// The module of the node's view is not loaded.
    Slot(usize),
}

/// Where a navigation stops.
#[derive(Clone, Copy, Debug, PartialEq, Eq, Structural)]
pub enum Stop {
    /// Before anything is matched: the bootstrap gate is not satisfied.
    Bootstrap,
    /// The path matches no route.
    NotFound,
    /// More redirects would have to be followed than the bound allows.
    RedirectLoop,
    /// At the session gate of the node.
    Gate(usize),
    /// At the lazy view of the node.
    Slot(usize),
    /// Nowhere: the whole chain renders.
    Complete,
}

/// The gates and slots of a navigator, as plain values. Gates and slots are
/// kept by node position; a gate that was never mounted is `None`.
pub ghost struct NavState {
    pub bootstrap: Option<GateModel>,
    pub sessions: Seq<Option<GateModel>>,
    pub slots: Seq<LazySlot>,
}

/// The result of a walk: the layers gathered, and why it ended.
pub ghost struct Walk {
    pub layers: Seq<Layer>,
    pub halt: Halt,
}

/// The result of planning: where the navigation stops, the layers that render
/// above that place, and the parameters captured by the match.
pub ghost struct Route {
    pub stop: Stop,
    pub layers: Seq<Layer>,
    pub params: Seq<(Seq<char>, Seq<char>)>,
}

/// Whether a gate is there and satisfied.
pub open spec fn passed(gate: Option<GateModel>) -> bool {
    gate matches Some(g) && g.state == GateState::Satisfied
}

/// What a state must be like to belong to a tree: one gate place and one
/// slot for each node, and every gate of the kind of its place.
pub open spec fn state_ok(nodes: Seq<RouteNode>, st: NavState) -> bool {
    &&& st.sessions.len() == nodes.len()
    &&& st.slots.len() == nodes.len()
    &&& (st.bootstrap matches Some(g) ==> g.kind == GateKind::Bootstrap)
    &&& forall|n: int|
        0 <= n < st.sessions.len() ==> (#[trigger] st.sessions[n] matches Some(g) ==> g.kind
            == GateKind::Session)
}

/// The layer that the node `n` adds: its view, where it has one and the
/// module is loaded.
pub open spec fn layer_of(nodes: Seq<RouteNode>, st: NavState, n: usize) -> Seq<Layer> {
    match (nodes[n as int].lazy_view, st.slots[n as int].module()) {
        (Some(view), Some(module)) => seq![Layer { node: n, view, module }],
        _ => Seq::empty(),
    }
}

/// Why the node `n` cannot be passed, if it cannot: a redirect comes first,
/// then the session gate, then the lazy view. A bootstrap gate on a node
/// names the one bootstrap gate of the application, which is passed before any path
/// is matched.
pub open spec fn blocked_at(nodes: Seq<RouteNode>, st: NavState, n: usize) -> Option<Halt> {
    let node = nodes[n as int];
    if node.redirect is Some {
        Some(Halt::Redirect(n))
    } else if node.gate == Some(GateKind::Session) && !passed(st.sessions[n as int]) {
        Some(Halt::Gate(n))
    } else if node.lazy_view is Some && st.slots[n as int].module() is None {
        Some(Halt::Slot(n))
    } else {
        None
    }
}

/// Walks the chain from place `from` on, with `layers` gathered above.
pub open spec fn walk(
    nodes: Seq<RouteNode>,
    st: NavState,
    chain: Seq<usize>,
    from: nat,
    layers: Seq<Layer>,
) -> Walk
    decreases chain.len() - from,
{
    if from >= chain.len() {
        Walk { layers, halt: Halt::Through }
    } else {
        match blocked_at(nodes, st, chain[from as int]) {
            Some(halt) => Walk { layers, halt },
            None => walk(
                nodes,
                st,
                chain,
                from + 1,
                layers + layer_of(nodes, st, chain[from as int]),
            ),
        }
    }
}

/// A route that stops with nothing rendered.
pub open spec fn bare(stop: Stop) -> Route {
    Route { stop, layers: Seq::empty(), params: Seq::empty() }
}

/// Plans the way to `target`, after `hops` redirects were followed, of which
/// at most `max` are allowed.
pub open spec fn route(
    nodes: Seq<RouteNode>,
    st: NavState,
    target: Seq<char>,
    hops: nat,
    max: nat,
) -> Route
    decreases max - hops,
{
    match matched(nodes, target) {
        None => bare(Stop::NotFound),
        Some(m) => {
            let w = walk(nodes, st, m.chain, 0, Seq::empty());
            match w.halt {
                Halt::Redirect(n) => match nodes[n as int].redirect {
                    Some(next) => if hops >= max {
                        bare(Stop::RedirectLoop)
                    } else {
                        route(nodes, st, next@, hops + 1, max)
                    },
                    None => bare(Stop::NotFound),
                },
                Halt::Gate(n) => Route { stop: Stop::Gate(n), layers: w.layers, params: m.params },
                Halt::Slot(n) => Route { stop: Stop::Slot(n), layers: w.layers, params: m.params },
                Halt::Through => Route { stop: Stop::Complete, layers: w.layers, params: m.params },
            }
        },
    }
}

/// Plans a navigation to `path`. Nothing is matched before the bootstrap
/// gate is satisfied.
pub open spec fn plan(nodes: Seq<RouteNode>, st: NavState, path: Seq<char>, max: nat) -> Route {
    if !passed(st.bootstrap) {
        bare(Stop::Bootstrap)
    } else {
        route(nodes, st, path, 0, max)
    }
}

/// Whether `halt` names a node of the chain that is blocked for that reason,
/// or no node at all.
pub open spec fn halts_on(nodes: Seq<RouteNode>, st: NavState, chain: Seq<usize>, halt: Halt) -> bool {
    halt != Halt::Through ==> exists|i: int|
        0 <= i < chain.len() && blocked_at(nodes, st, #[trigger] chain[i]) == Some(halt)
}

/// A walk that halts at a node halts at a node of the chain, and for the
/// reason that `blocked_at` gives.
pub proof fn lemma_walk_halt(
    nodes: Seq<RouteNode>,
    st: NavState,
    chain: Seq<usize>,
    from: nat,
    layers: Seq<Layer>,
)
    ensures
        halts_on(nodes, st, chain, walk(nodes, st, chain, from, layers).halt),
    decreases chain.len() - from,
{
    if from < chain.len() && blocked_at(nodes, st, chain[from as int]) is None {
        lemma_walk_halt(nodes, st, chain, from + 1, layers + layer_of(nodes, st, chain[from as int]));
    }
}

} // verus!
