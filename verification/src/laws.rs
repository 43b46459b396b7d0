//! What holds of every navigation, whatever the tree and the state.

use crate::gate::{state_after, GateModel, GateState};
use crate::matcher::{lemma_matched_ok, matched};
use crate::navigator::{
    checked, gate_named, kicked, retriggered, step, Effect, GateRef, RenderView, Terminal,
};
use crate::plan::{
    blocked_at, halts_on, layer_of, lemma_walk_halt, passed, plan, route, state_ok, walk, Halt,
    Layer, NavState, Stop,
};
use crate::route::{GateKind, RouteNode, ViewRef};
use vstd::prelude::*;

verus! {

/// Every node of the chain can render: none redirects, every session gate on
/// the way is satisfied, and every lazy view has its module.
pub open spec fn clear(nodes: Seq<RouteNode>, st: NavState, chain: Seq<usize>) -> bool {
    forall|i: int|
        0 <= i < chain.len() ==> {
            let n = #[trigger] chain[i];
            &&& nodes[n as int].redirect is None
            &&& (nodes[n as int].gate == Some(GateKind::Session) ==> passed(st.sessions[n as int]))
            &&& (nodes[n as int].lazy_view is Some ==> st.slots[n as int].module() is Some)
        }
}

/// The views of the chain from place `from` on, outermost first.
pub open spec fn composed(nodes: Seq<RouteNode>, st: NavState, chain: Seq<usize>, from: nat) -> Seq<
    Layer,
>
    decreases chain.len() - from,
{
    if from >= chain.len() {
        Seq::empty()
    } else {
        layer_of(nodes, st, chain[from as int]) + composed(nodes, st, chain, from + 1)
    }
}

/// Where the navigation to `target` is sent on, if its match ends in a
/// redirect that the walk reaches.
pub open spec fn redirect_of(nodes: Seq<RouteNode>, st: NavState, target: Seq<char>) -> Option<
    Seq<char>,
> {
    match matched(nodes, target) {
        Some(m) => match walk(nodes, st, m.chain, 0, Seq::empty()).halt {
            Halt::Redirect(n) => match nodes[n as int].redirect {
                Some(next) => Some(next@),
                None => None,
            },
            _ => None,
        },
        None => None,
    }
}

/// The path reached from `path` after `hops` redirects, if there are that
/// many in a row.
pub open spec fn hop(nodes: Seq<RouteNode>, st: NavState, path: Seq<char>, hops: nat) -> Option<
    Seq<char>,
>
    decreases hops,
{
    if hops == 0 {
        Some(path)
    } else {
        match redirect_of(nodes, st, path) {
            Some(next) => hop(nodes, st, next, (hops - 1) as nat),
            None => None,
        }
    }
}

/// Two states let the same nodes through: the same gates are satisfied in
/// both, and the same modules are loaded.
pub open spec fn same_passage(a: NavState, b: NavState) -> bool {
    &&& passed(a.bootstrap) == passed(b.bootstrap)
    &&& a.sessions.len() == b.sessions.len()
    &&& a.slots.len() == b.slots.len()
    &&& forall|n: int| 0 <= n < a.sessions.len() ==> passed(#[trigger] a.sessions[n]) == passed(b.sessions[n])
    &&& forall|n: int| 0 <= n < a.slots.len() ==> (#[trigger] a.slots[n]).module() == b.slots[n].module()
}

/// What a stop at a node says of that node.
pub open spec fn stop_ok(nodes: Seq<RouteNode>, st: NavState, stop: Stop) -> bool {
    match stop {
        Stop::Gate(n) => {
            &&& n < nodes.len()
            &&& nodes[n as int].gate == Some(GateKind::Session)
            &&& !passed(st.sessions[n as int])
        },
        Stop::Slot(n) => {
            &&& n < nodes.len()
            &&& nodes[n as int].lazy_view is Some
            &&& st.slots[n as int].module() is None
        },
        _ => true,
    }
}

/// A walk looks at a state only to see which gates are satisfied and which
/// modules are loaded.
proof fn lemma_walk_frame(
    nodes: Seq<RouteNode>,
    a: NavState,
    b: NavState,
    chain: Seq<usize>,
    from: nat,
    layers: Seq<Layer>,
)
    requires
        same_passage(a, b),
        a.sessions.len() == nodes.len(),
        a.slots.len() == nodes.len(),
        forall|i: int| 0 <= i < chain.len() ==> #[trigger] chain[i] < nodes.len(),
    ensures
        walk(nodes, a, chain, from, layers) == walk(nodes, b, chain, from, layers),
    decreases chain.len() - from,
{
    if from < chain.len() {
        let n = chain[from as int];
        assert(passed(a.sessions[n as int]) == passed(b.sessions[n as int]));
        assert(a.slots[n as int].module() == b.slots[n as int].module());
        if blocked_at(nodes, a, n) is None {
            lemma_walk_frame(nodes, a, b, chain, from + 1, layers + layer_of(nodes, a, n));
        }
    }
}

/// So does planning a route.
proof fn lemma_route_frame(
    nodes: Seq<RouteNode>,
    a: NavState,
    b: NavState,
    target: Seq<char>,
    hops: nat,
    max: nat,
)
    requires
        nodes.len() > 0,
        same_passage(a, b),
        a.sessions.len() == nodes.len(),
        a.slots.len() == nodes.len(),
    ensures
        route(nodes, a, target, hops, max) == route(nodes, b, target, hops, max),
    decreases max - hops,
{
    lemma_matched_ok(nodes, target);
    match matched(nodes, target) {
        None => {},
        Some(m) => {
            lemma_walk_frame(nodes, a, b, m.chain, 0, Seq::empty());
            match walk(nodes, a, m.chain, 0, Seq::empty()).halt {
                Halt::Redirect(n) => match nodes[n as int].redirect {
                    Some(next) => {
                        if hops < max {
                            lemma_route_frame(nodes, a, b, next@, hops + 1, max);
                        }
                    },
                    None => {},
                },
                _ => {},
            }
        },
    }
}

/// A route stops only at a node that cannot be passed.
proof fn lemma_route_stop(nodes: Seq<RouteNode>, st: NavState, target: Seq<char>, hops: nat, max: nat)
    requires
        nodes.len() > 0,
    ensures
        stop_ok(nodes, st, route(nodes, st, target, hops, max).stop),
        route(nodes, st, target, hops, max).stop != Stop::Bootstrap,
    decreases max - hops,
{
    lemma_matched_ok(nodes, target);
    match matched(nodes, target) {
        None => {},
        Some(m) => {
            lemma_walk_halt(nodes, st, m.chain, 0, Seq::empty());
            let halt = walk(nodes, st, m.chain, 0, Seq::empty()).halt;
            assert(halts_on(nodes, st, m.chain, halt));
            match halt {
                Halt::Redirect(n) => match nodes[n as int].redirect {
                    Some(next) => {
                        if hops < max {
                            lemma_route_stop(nodes, st, next@, hops + 1, max);
                        }
                    },
                    None => {},
                },
                Halt::Gate(n) => {
                    let i = choose|i: int|
                        0 <= i < m.chain.len() && blocked_at(nodes, st, #[trigger] m.chain[i]) == Some(
                            halt,
                        );
                    assert(m.chain[i] == n);
                },
                Halt::Slot(n) => {
                    let i = choose|i: int|
                        0 <= i < m.chain.len() && blocked_at(nodes, st, #[trigger] m.chain[i]) == Some(
                            halt,
                        );
                    assert(m.chain[i] == n);
                },
                Halt::Through => {},
            }
        },
    }
}

/// A chain that is clear is walked to its end, and gathers its views.
proof fn lemma_walk_clear(
    nodes: Seq<RouteNode>,
    st: NavState,
    chain: Seq<usize>,
    from: nat,
    layers: Seq<Layer>,
)
    requires
        clear(nodes, st, chain),
    ensures
        walk(nodes, st, chain, from, layers).halt == Halt::Through,
        walk(nodes, st, chain, from, layers).layers == layers + composed(nodes, st, chain, from),
    decreases chain.len() - from,
{
    if from < chain.len() {
        let n = chain[from as int];
        let next = layers + layer_of(nodes, st, n);
        lemma_walk_clear(nodes, st, chain, from + 1, next);
        assert(next + composed(nodes, st, chain, from + 1) =~= layers + composed(
            nodes,
            st,
            chain,
            from,
        ));
    } else {
        assert(layers + composed(nodes, st, chain, from) =~= layers);
    }
}

/// A path whose chain is clear renders in full: once the bootstrap gate is
/// satisfied, and on the matched chain no node redirects, every session gate
/// is satisfied and every lazy module is loaded, navigation renders the views
/// of the chain, nested as the tree declares them, with the parameters of the
/// match. It starts nothing and changes nothing.
pub proof fn law_clear_chain_renders(
    nodes: Seq<RouteNode>,
    not_found: ViewRef,
    st: NavState,
    path: Seq<char>,
    max: nat,
    retry: bool,
)
    requires
        passed(st.bootstrap),
        matched(nodes, path) matches Some(m) && clear(nodes, st, m.chain),
    ensures
        step(nodes, not_found, st, path, max, retry) == (
            st,
            RenderView {
                layers: composed(nodes, st, matched(nodes, path).unwrap().chain, 0),
                terminal: Terminal::Complete,
                params: matched(nodes, path).unwrap().params,
            },
            None::<Effect>,
        ),
{
    let m = matched(nodes, path).unwrap();
    lemma_walk_clear(nodes, st, m.chain, 0, Seq::empty());
    assert(Seq::<Layer>::empty() + composed(nodes, st, m.chain, 0) =~= composed(
        nodes,
        st,
        m.chain,
        0,
    ));
}

/// How planning goes on after `hops` redirects, told by the redirects that
/// are still to come.
proof fn lemma_route_loop(nodes: Seq<RouteNode>, st: NavState, target: Seq<char>, hops: nat, max: nat)
    requires
        hops <= max,
    ensures
        route(nodes, st, target, hops, max).stop == Stop::RedirectLoop <==> hop(
            nodes,
            st,
            target,
            (max - hops + 1) as nat,
        ) is Some,
    decreases max - hops,
{
    let left = (max - hops + 1) as nat;
    match redirect_of(nodes, st, target) {
        Some(next) => {
            if hops < max {
                lemma_route_loop(nodes, st, next, hops + 1, max);
                assert((max - (hops + 1) + 1) as nat == (left - 1) as nat);
            } else {
                assert(hop(nodes, st, next, 0) == Some(next));
            }
        },
        None => {},
    }
}

/// Redirects are bounded: a navigation ends in the redirect failure exactly
/// when more redirects follow one another from its path than the bound
/// allows. It never follows more than the bound.
pub proof fn law_redirects_are_bounded(
    nodes: Seq<RouteNode>,
    not_found: ViewRef,
    st: NavState,
    path: Seq<char>,
    max: nat,
    retry: bool,
)
    requires
        passed(st.bootstrap),
    ensures
        hop(nodes, st, path, max + 1) is Some <==> step(
            nodes,
            not_found,
            st,
            path,
            max,
            retry,
        ).1.terminal == Terminal::RedirectFailure,
        hop(nodes, st, path, max + 1) is Some ==> step(nodes, not_found, st, path, max, retry).0
            == st && step(nodes, not_found, st, path, max, retry).2 is None,
{
    lemma_route_loop(nodes, st, path, 0, max);
}

/// Navigating again to the same path is idle: a second navigation to the
/// path of the first, with nothing reported in between, starts no load and
/// no check, leaves every gate and slot as the first left it, and renders
/// what the first rendered. The same holds of going on after a navigation,
/// and of going on twice.
pub proof fn law_renavigation_is_idle(
    nodes: Seq<RouteNode>,
    not_found: ViewRef,
    st: NavState,
    path: Seq<char>,
    max: nat,
    first_retry: bool,
    second_retry: bool,
)
    requires
        nodes.len() > 0,
        state_ok(nodes, st),
        second_retry ==> first_retry,
    ensures
        ({
            let once = step(nodes, not_found, st, path, max, first_retry);
            step(nodes, not_found, once.0, path, max, second_retry) == (once.0, once.1, None::<Effect>)
        }),
{
    let r = plan(nodes, st, path, max);
    let after = kicked(nodes, st, r.stop, first_retry).0;
    if passed(st.bootstrap) {
        lemma_route_stop(nodes, st, path, 0, max);
    }
    assert(stop_ok(nodes, st, r.stop));
    assert(same_passage(st, after));
    if passed(st.bootstrap) {
        lemma_route_frame(nodes, st, after, path, 0, max);
    }
    assert(plan(nodes, after, path, max) == r);
    assert(kicked(nodes, after, r.stop, second_retry) == (after, None::<Effect>));
}

/// A rendered path stays as it is: where the navigation to a path renders in
/// full, redirects followed or not, it starts no load and no check and
/// changes no gate and no slot, however often it is made.
pub proof fn law_rendered_path_is_idle(
    nodes: Seq<RouteNode>,
    not_found: ViewRef,
    st: NavState,
    path: Seq<char>,
    max: nat,
    retry: bool,
)
    requires
        step(nodes, not_found, st, path, max, true).1.terminal == Terminal::Complete,
    ensures
        step(nodes, not_found, st, path, max, retry) == (
            st,
            step(nodes, not_found, st, path, max, true).1,
            None::<Effect>,
        ),
{
}

/// No node has two loads under way: while the module of a node is being
/// loaded, no navigation to any path asks for it again, and the slot goes on
/// waiting for the load in flight.
pub proof fn law_one_load_in_flight(
    nodes: Seq<RouteNode>,
    not_found: ViewRef,
    st: NavState,
    path: Seq<char>,
    max: nat,
    retry: bool,
    node: usize,
)
    requires
        nodes.len() > 0,
        state_ok(nodes, st),
        node < nodes.len(),
        st.slots[node as int] is Loading,
    ensures
        ({
            let once = step(nodes, not_found, st, path, max, retry);
            &&& once.0.slots[node as int] is Loading
            &&& !(once.2 matches Some(Effect::StartLoad { node: n, .. }) && n == node)
        }),
{
    if passed(st.bootstrap) {
        lemma_route_stop(nodes, st, path, 0, max);
    }
}

/// No placeholder without work under way: where a navigation renders the
/// placeholder of a gate, that gate is mounted and its check is in flight,
/// and where it renders the placeholder of a view, the module of that view
/// is being loaded. So a navigation that has not rendered in full, and has
/// not failed, always waits for a report that is still to come.
pub proof fn law_placeholder_means_in_flight(
    nodes: Seq<RouteNode>,
    not_found: ViewRef,
    st: NavState,
    path: Seq<char>,
    max: nat,
    retry: bool,
)
    requires
        nodes.len() > 0,
        state_ok(nodes, st),
    ensures
        ({
            let stop = plan(nodes, st, path, max).stop;
            let once = step(nodes, not_found, st, path, max, retry);
            match once.1.terminal {
                Terminal::GateFallback(GateKind::Bootstrap) => {
                    &&& stop == Stop::Bootstrap
                    &&& once.0.bootstrap matches Some(g) && g.state == GateState::Pending
                },
                Terminal::GateFallback(GateKind::Session) => {
                    &&& stop matches Stop::Gate(n) && n < nodes.len()
                    &&& once.0.sessions[stop->Gate_0 as int] matches Some(g) && g.state
                        == GateState::Pending
                },
                Terminal::LoadFallback(n) => {
                    &&& stop == Stop::Slot(n)
                    &&& n < nodes.len()
                    &&& once.0.slots[n as int] is Loading
                },
                _ => true,
            }
        }),
{
    if passed(st.bootstrap) {
        lemma_route_stop(nodes, st, path, 0, max);
    }
}

/// Nothing comes before the bootstrap: while the bootstrap gate is not
/// satisfied, a navigation to any path renders its placeholder, or its
/// failure view once the check has failed, and nothing else; it touches no
/// session gate and no slot, and starts at most the bootstrap check itself,
/// once.
pub proof fn law_bootstrap_comes_first(
    nodes: Seq<RouteNode>,
    not_found: ViewRef,
    st: NavState,
    path: Seq<char>,
    max: nat,
    retry: bool,
)
    requires
        !passed(st.bootstrap),
    ensures
        ({
            let once = step(nodes, not_found, st, path, max, retry);
            &&& once.1.layers == Seq::<Layer>::empty()
            &&& once.1.terminal == if st.bootstrap matches Some(g) && g.state == GateState::Failed {
                Terminal::GateFailure(GateKind::Bootstrap)
            } else {
                Terminal::GateFallback(GateKind::Bootstrap)
            }
            &&& once.0.sessions == st.sessions
            &&& once.0.slots == st.slots
            &&& once.2 == if st.bootstrap is None {
                Some(Effect::StartCheck { gate: GateRef::Bootstrap, ticket: 0 })
            } else {
                None
            }
        }),
{
}

/// A path that matches nothing gets the not-found view, once the bootstrap
/// gate is satisfied.
pub proof fn law_unmatched_is_not_found(
    nodes: Seq<RouteNode>,
    not_found: ViewRef,
    st: NavState,
    path: Seq<char>,
    max: nat,
    retry: bool,
)
    requires
        passed(st.bootstrap),
        matched(nodes, path) is None,
    ensures
        step(nodes, not_found, st, path, max, retry) == (
            st,
            RenderView {
                layers: Seq::empty(),
                terminal: Terminal::NotFound(not_found),
                params: Seq::empty(),
            },
            None::<Effect>,
        ),
{
}

/// A gate that is not satisfied lets nothing below it load: a navigation
/// that stops at a gate starts no load, and one that stops at a gate whose
/// check has failed renders the failure view and starts nothing at all.
pub proof fn law_gate_holds_back_loads(
    nodes: Seq<RouteNode>,
    not_found: ViewRef,
    st: NavState,
    path: Seq<char>,
    max: nat,
    retry: bool,
)
    requires
        nodes.len() > 0,
        state_ok(nodes, st),
        plan(nodes, st, path, max).stop matches Stop::Gate(_),
    ensures
        ({
            let once = step(nodes, not_found, st, path, max, retry);
            let n = plan(nodes, st, path, max).stop->Gate_0;
            &&& !(once.2 matches Some(Effect::StartLoad { .. }))
            &&& once.0.slots == st.slots
            &&& (st.sessions[n as int] matches Some(g) && g.state == GateState::Failed ==> once
                == (
                st,
                RenderView {
                    layers: plan(nodes, st, path, max).layers,
                    terminal: Terminal::GateFailure(GateKind::Session),
                    params: plan(nodes, st, path, max).params,
                },
                None::<Effect>,
            ))
        }),
{
}

/// The last token wins: where the token of a mounted session gate changes
/// twice before the first check reports, the result of the first check is
/// dropped whenever it arrives, and the state of that gate is the one that
/// the result of the second check calls for.
pub proof fn law_last_token_wins(st: NavState, node: usize, first: Option<bool>, second: Option<bool>)
    requires
        node < st.sessions.len(),
        st.sessions[node as int] matches Some(g) && g.kind == GateKind::Session,
    ensures
        ({
            let gate = GateRef::Session(node);
            let once = retriggered(st, node);
            let twice = retriggered(once, node);
            let early = gate_named(once, gate).unwrap().ticket;
            let late = gate_named(twice, gate).unwrap().ticket;
            &&& gate_named(twice, gate).unwrap().state == GateState::Pending
            &&& checked(twice, gate, early, first) == twice
            &&& gate_named(checked(checked(twice, gate, early, first), gate, late, second), gate)
                == Some(
                GateModel { kind: GateKind::Session, state: state_after(second), ticket: late },
            )
            &&& checked(checked(twice, gate, late, second), gate, early, first) == checked(
                twice,
                gate,
                late,
                second,
            )
        }),
{
    let gate = GateRef::Session(node);
    let once = retriggered(st, node);
    let twice = retriggered(once, node);
    let early = gate_named(once, gate).unwrap().ticket;
    let late = gate_named(twice, gate).unwrap().ticket;
    law_stale_check_changes_nothing(twice, gate, early, first);
    law_stale_check_changes_nothing(checked(twice, gate, late, second), gate, early, first);
}

/// A result that its gate does not accept changes nothing in the controller.
pub proof fn law_stale_check_changes_nothing(
    st: NavState,
    gate: GateRef,
    ticket: nat,
    outcome: Option<bool>,
)
    requires
        gate_named(st, gate) matches Some(g) ==> !g.accepts(ticket),
    ensures
        checked(st, gate, ticket, outcome) == st,
{
    match gate {
        GateRef::Bootstrap => {},
        GateRef::Session(n) => {
            if n < st.sessions.len() {
                assert(checked(st, gate, ticket, outcome).sessions =~= st.sessions);
            }
        },
    }
}

} // verus!
