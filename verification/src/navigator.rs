//! The navigation controller.
//!
//! The controller owns the route tree, the gates and the slots. It does no
//! waiting of its own: `navigate` says what to render now and which one check
//! or load to start, and the caller reports back when that has settled.

use crate::gate::{Gate, GateModel, GateState};
use crate::lazy::{LazySlot, LoadFault, ModuleId};
use crate::matcher::{bindings, lemma_matched_ok, match_path, Capture};
use crate::plan::{
    bare, blocked_at, halts_on, layer_of, lemma_walk_halt, passed, plan, route, state_ok, walk,
    Halt, Layer, NavState, Route, Stop,
};
use crate::route::{GateKind, RouteError, RouteNode, RouteTree, ViewRef};
use vstd::prelude::*;

verus! {

/// Names a gate.
#[derive(Clone, Copy, Debug, PartialEq, Eq, Structural)]
pub enum GateRef {
    /// The bootstrap gate, which the whole application waits for.
    Bootstrap,
    /// The session gate mounted at the node.
    Session(usize),
}

/// The one thing that a navigation asks its caller to start.
#[derive(Clone, Copy, Debug, PartialEq, Eq, Structural)]
pub enum Effect {
    /// Run the check of this gate, and report its result under the ticket.
    StartCheck { gate: GateRef, ticket: u64 },
    /// Load the module of the node's view, and report how it went.
    StartLoad { node: usize, view: ViewRef },
}

/// What is rendered innermost, inside all layers.
#[derive(Clone, Copy, Debug, PartialEq, Eq, Structural)]
pub enum Terminal {
    /// Nothing more: the layers are the whole view.
    Complete,
    /// The view for paths that match nothing.
    NotFound(ViewRef),
    /// The placeholder of a gate whose check is in flight.
    GateFallback(GateKind),
    /// The failure view of a gate whose check said no.
    GateFailure(GateKind),
    /// The placeholder of the node's view, whose module is being loaded.
    LoadFallback(usize),
    /// The error view of the node's view, whose module did not load.
    LoadFailure(usize, LoadFault),
    /// The error view for a redirect loop.
    RedirectFailure,
}

impl Terminal {
    /// The error that the view stands for, where it stands for one.
    pub open spec fn fault(self) -> Option<RouteError> {
        match self {
            Terminal::GateFailure(_) => Some(RouteError::GateCheckFailure),
            Terminal::LoadFailure(_, _) => Some(RouteError::LazyLoadFailure),
            Terminal::RedirectFailure => Some(RouteError::RedirectLoopExceeded),
            _ => None,
        }
    }

    /// The error that the view stands for, where it stands for one.
    pub fn error(&self) -> (e: Option<RouteError>)
        ensures
            e == self.fault(),
    {
        match self {
            Terminal::GateFailure(_) => Some(RouteError::GateCheckFailure),
            Terminal::LoadFailure(_, _) => Some(RouteError::LazyLoadFailure),
            Terminal::RedirectFailure => Some(RouteError::RedirectLoopExceeded),
            _ => None,
        }
    }
}

/// What to render: the layers from the outermost in, and inside them the
/// terminal.
#[derive(Clone, Debug, PartialEq, Eq)]
pub struct RenderDecision {
    pub layers: Vec<Layer>,
    pub terminal: Terminal,
    /// The parameters captured from the path, for the views to read.
    pub params: Vec<Capture>,
}

/// A render decision, as plain values.
pub ghost struct RenderView {
    pub layers: Seq<Layer>,
    pub terminal: Terminal,
    pub params: Seq<(Seq<char>, Seq<char>)>,
}

impl View for RenderDecision {
    type V = RenderView;

    open spec fn view(&self) -> RenderView {
        RenderView { layers: self.layers@, terminal: self.terminal, params: bindings(self.params@) }
    }
}

/// What a navigation comes to: what to render, and what to start.
#[derive(Clone, Debug, PartialEq, Eq)]
pub struct Navigation {
    pub decision: RenderDecision,
    pub effect: Option<Effect>,
}

/// The state after the navigation has started what it stops at, and what it
/// asks the caller to start.
///
/// A gate that was never mounted is mounted, and its first check is owed. A
/// module that was never asked for is asked for, and its load is owed; one
/// whose load failed is asked for again only where `retry` says so. Whatever
/// is in flight already is left alone.
pub open spec fn kicked(nodes: Seq<RouteNode>, st: NavState, stop: Stop, retry: bool) -> (
    NavState,
    Option<Effect>,
) {
    match stop {
        Stop::Bootstrap => if st.bootstrap is None {
            (
                NavState { bootstrap: Some(GateModel::mounted(GateKind::Bootstrap)), ..st },
                Some(Effect::StartCheck { gate: GateRef::Bootstrap, ticket: 0 }),
            )
        } else {
            (st, None)
        },
        Stop::Gate(n) => if st.sessions[n as int] is None {
            (
                NavState {
                    sessions: st.sessions.update(
                        n as int,
                        Some(GateModel::mounted(GateKind::Session)),
                    ),
                    ..st
                },
                Some(Effect::StartCheck { gate: GateRef::Session(n), ticket: 0 }),
            )
        } else {
            (st, None)
        },
        Stop::Slot(n) => match (st.slots[n as int], nodes[n as int].lazy_view) {
            (LazySlot::Unloaded, Some(view)) => (
                NavState { slots: st.slots.update(n as int, LazySlot::Loading), ..st },
                Some(Effect::StartLoad { node: n, view }),
            ),
            (LazySlot::Failed(_), Some(view)) => if retry {
                (
                    NavState { slots: st.slots.update(n as int, LazySlot::Loading), ..st },
                    Some(Effect::StartLoad { node: n, view }),
                )
            } else {
                (st, None)
            },
            _ => (st, None),
        },
        _ => (st, None),
    }
}

/// The placeholder or the failure view of a gate of the given kind.
pub open spec fn gate_terminal(gate: Option<GateModel>, kind: GateKind) -> Terminal {
    match gate {
        Some(g) => if g.state == GateState::Failed {
            Terminal::GateFailure(kind)
        } else {
            Terminal::GateFallback(kind)
        },
        None => Terminal::GateFallback(kind),
    }
}

/// What is rendered innermost where the navigation stops at `stop`.
pub open spec fn terminal_at(st: NavState, stop: Stop, not_found: ViewRef) -> Terminal {
    match stop {
        Stop::Bootstrap => gate_terminal(st.bootstrap, GateKind::Bootstrap),
        Stop::NotFound => Terminal::NotFound(not_found),
        Stop::RedirectLoop => Terminal::RedirectFailure,
        Stop::Gate(n) => gate_terminal(st.sessions[n as int], GateKind::Session),
        Stop::Slot(n) => match st.slots[n as int] {
            LazySlot::Failed(fault) => Terminal::LoadFailure(n, fault),
            _ => Terminal::LoadFallback(n),
        },
        Stop::Complete => Terminal::Complete,
    }
}

/// What is rendered for a planned route.
pub open spec fn shown(st: NavState, r: Route, not_found: ViewRef) -> RenderView {
    RenderView { layers: r.layers, terminal: terminal_at(st, r.stop, not_found), params: r.params }
}

/// One navigation step, as a whole: the state it leaves, what it renders, and
/// what it asks to be started.
pub open spec fn step(
    nodes: Seq<RouteNode>,
    not_found: ViewRef,
    st: NavState,
    path: Seq<char>,
    max: nat,
    retry: bool,
) -> (NavState, RenderView, Option<Effect>) {
    let r = plan(nodes, st, path, max);
    let k = kicked(nodes, st, r.stop, retry);
    (k.0, shown(k.0, r, not_found), k.1)
}

/// The state after the check of `gate`, started under `ticket`, reported
/// `outcome`. A report for a gate that is not mounted changes nothing.
pub open spec fn checked(st: NavState, gate: GateRef, ticket: nat, outcome: Option<bool>) -> NavState {
    match gate {
        GateRef::Bootstrap => match st.bootstrap {
            Some(g) => NavState { bootstrap: Some(g.resolved(ticket, outcome)), ..st },
            None => st,
        },
        GateRef::Session(n) => if n < st.sessions.len() {
            match st.sessions[n as int] {
                Some(g) => NavState {
                    sessions: st.sessions.update(n as int, Some(g.resolved(ticket, outcome))),
                    ..st
                },
                None => st,
            }
        } else {
            st
        },
    }
}

/// What `gate` names, where it is mounted.
pub open spec fn gate_named(st: NavState, gate: GateRef) -> Option<GateModel> {
    match gate {
        GateRef::Bootstrap => st.bootstrap,
        GateRef::Session(n) => if n < st.sessions.len() {
            st.sessions[n as int]
        } else {
            None
        },
    }
}

/// The state after the load for the node reported `outcome`. A report for a
/// node whose slot has no load in flight changes nothing.
pub open spec fn settled(st: NavState, node: usize, outcome: Result<ModuleId, LoadFault>) -> NavState {
    if node < st.slots.len() {
        NavState { slots: st.slots.update(node as int, st.slots[node as int].settled(outcome)), ..st }
    } else {
        st
    }
}

/// The state after the session token of a gate mounted at the node
/// changed. Where no gate is mounted there, nothing changes.
pub open spec fn retriggered(st: NavState, node: usize) -> NavState {
    match gate_named(st, GateRef::Session(node)) {
        Some(g) => NavState { sessions: st.sessions.update(node as int, Some(g.triggered())), ..st },
        None => st,
    }
}

/// The model of a gate that may not be mounted.
pub open spec fn gate_model(gate: Option<Gate>) -> Option<GateModel> {
    match gate {
        Some(g) => Some(g@),
        None => None,
    }
}

/// The result of planning, as the controller holds it.
struct Planned {
    stop: Stop,
    layers: Vec<Layer>,
    params: Vec<Capture>,
}

impl View for Planned {
    type V = Route;

    closed spec fn view(&self) -> Route {
        Route { stop: self.stop, layers: self.layers@, params: bindings(self.params@) }
    }
}

impl Planned {
    /// A route that stops with nothing rendered.
    fn bare(stop: Stop) -> (r: Planned)
        ensures
            r@ == bare(stop),
    {
        let r = Planned { stop, layers: Vec::new(), params: Vec::new() };
        assert(r@.layers =~= Seq::empty());
        assert(r@.params =~= Seq::empty());
        r
    }
}

/// The navigation controller.
#[derive(Clone, Debug)]
pub struct Navigator {
    tree: RouteTree,
    max_hops: usize,
    bootstrap: Option<Gate>,
    sessions: Vec<Option<Gate>>,
    slots: Vec<LazySlot>,
    current: Option<String>,
}

impl View for Navigator {
    type V = NavState;

    closed spec fn view(&self) -> NavState {
        NavState {
            bootstrap: gate_model(self.bootstrap),
            sessions: Seq::new(self.sessions@.len(), |i: int| gate_model(self.sessions@[i])),
            slots: self.slots@,
        }
    }
}

impl Navigator {
    /// The route tree.
    pub closed spec fn routes(&self) -> RouteTree {
        self.tree
    }

    /// How many redirects one navigation may follow.
    pub closed spec fn hop_bound(&self) -> nat {
        self.max_hops as nat
    }

    /// The path of the last navigation.
    pub closed spec fn location(&self) -> Option<Seq<char>> {
        match self.current {
            Some(path) => Some(path@),
            None => None,
        }
    }

    /// The invariant of every controller.
    pub open spec fn wf(&self) -> bool {
        &&& self.routes().wf()
        &&& state_ok(self.routes().nodes(), self@)
    }

    /// A controller for the tree, which follows at most `max_hops` redirects
    /// in one navigation. No gate is mounted yet and no module loaded.
    pub fn new(tree: RouteTree, max_hops: usize) -> (nav: Navigator)
        requires
            tree.wf(),
        ensures
            nav.wf(),
            nav.routes() == tree,
            nav.hop_bound() == max_hops,
            nav.location() is None,
            nav@.bootstrap is None,
            forall|n: int| 0 <= n < tree.nodes().len() ==> nav@.sessions[n] is None,
            forall|n: int| 0 <= n < tree.nodes().len() ==> nav@.slots[n] == LazySlot::Unloaded,
    {
        let count = tree.len();
        let mut sessions: Vec<Option<Gate>> = Vec::new();
        let mut slots: Vec<LazySlot> = Vec::new();
        let mut i: usize = 0;
        while i < count
            invariant
                i <= count,
                sessions@.len() == i,
                slots@.len() == i,
                forall|n: int| 0 <= n < i ==> sessions@[n] is None,
                forall|n: int| 0 <= n < i ==> slots@[n] == LazySlot::Unloaded,
            decreases count - i,
        {
            sessions.push(None);
            slots.push(LazySlot::Unloaded);
            i = i + 1;
        }
        Navigator { tree, max_hops, bootstrap: None, sessions, slots, current: None }
    }

    /// Whether the bootstrap gate is satisfied.
    fn bootstrap_passed(&self) -> (yes: bool)
        ensures
            yes == passed(self@.bootstrap),
    {
        match self.bootstrap {
            Some(gate) => gate.state() == GateState::Satisfied,
            None => false,
        }
    }

    /// Why the node `n` cannot be passed, if it cannot.
    fn blocked(&self, n: usize) -> (halt: Option<Halt>)
        requires
            self.wf(),
            n < self.routes().nodes().len(),
        ensures
            halt == blocked_at(self.routes().nodes(), self@, n),
    {
        let node = self.tree.node(n);
        if node.redirect.is_some() {
            return Some(Halt::Redirect(n));
        }
        let session_gated = match node.gate {
            Some(GateKind::Session) => true,
            _ => false,
        };
        if session_gated {
            let open = match self.sessions[n] {
                Some(gate) => gate.state() == GateState::Satisfied,
                None => false,
            };
            if !open {
                return Some(Halt::Gate(n));
            }
        }
        if node.lazy_view.is_some() && self.slots[n].loaded().is_none() {
            return Some(Halt::Slot(n));
        }
        None
    }

    /// Walks a matched chain from the root down.
    fn walk_chain(&self, chain: &Vec<usize>) -> (w: (Vec<Layer>, Halt))
        requires
            self.wf(),
            forall|i: int| 0 <= i < chain@.len() ==> #[trigger] chain@[i] < self.routes().nodes().len(),
        ensures
            walk(self.routes().nodes(), self@, chain@, 0, Seq::empty()).layers == w.0@,
            walk(self.routes().nodes(), self@, chain@, 0, Seq::empty()).halt == w.1,
            halts_on(self.routes().nodes(), self@, chain@, w.1),
    {
        let mut layers: Vec<Layer> = Vec::new();
        let mut i: usize = 0;
        proof {
            lemma_walk_halt(self.routes().nodes(), self@, chain@, 0, Seq::empty());
        }
        while i < chain.len()
            invariant
                self.wf(),
                i <= chain@.len(),
                forall|k: int|
                    0 <= k < chain@.len() ==> #[trigger] chain@[k] < self.routes().nodes().len(),
                walk(self.routes().nodes(), self@, chain@, 0, Seq::empty()) == walk(
                    self.routes().nodes(),
                    self@,
                    chain@,
                    i as nat,
                    layers@,
                ),
                halts_on(
                    self.routes().nodes(),
                    self@,
                    chain@,
                    walk(self.routes().nodes(), self@, chain@, 0, Seq::empty()).halt,
                ),
            decreases chain@.len() - i,
        {
            let n = chain[i];
            match self.blocked(n) {
                Some(halt) => {
                    return (layers, halt);
                },
                None => {
                    let ghost before = layers@;
                    let node = self.tree.node(n);
                    match (node.lazy_view, self.slots[n].loaded()) {
                        (Some(view), Some(module)) => {
                            layers.push(Layer { node: n, view, module });
                        },
                        _ => {},
                    }
                    assert(layers@ =~= before + layer_of(self.routes().nodes(), self@, n));
                },
            }
            i = i + 1;
        }
        (layers, Halt::Through)
    }

    /// Plans a navigation to `path`.
    fn plan_route(&self, path: &str) -> (r: Planned)
        requires
            self.wf(),
        ensures
            r@ == plan(self.routes().nodes(), self@, path@, self.hop_bound()),
            match r@.stop {
                Stop::Gate(n) => n < self.routes().nodes().len() && !passed(self@.sessions[n as int]),
                Stop::Slot(n) => n < self.routes().nodes().len() && self@.slots[n as int].module()
                    is None && self.routes().nodes()[n as int].lazy_view is Some,
                _ => true,
            },
    {
        if !self.bootstrap_passed() {
            return Planned::bare(Stop::Bootstrap);
        }
        let ghost nodes = self.routes().nodes();
        let ghost max = self.hop_bound();
        let mut target: String = path.to_owned();
        let mut hops: usize = 0;
        loop
            invariant
                self.wf(),
                nodes == self.routes().nodes(),
                max == self.hop_bound(),
                hops <= max,
                passed(self@.bootstrap),
                route(nodes, self@, path@, 0, max) == route(nodes, self@, target@, hops as nat, max),
            decreases max - hops,
        {
            proof {
                lemma_matched_ok(nodes, target@);
            }
            match match_path(&self.tree, target.as_str()) {
                None => {
                    return Planned::bare(Stop::NotFound);
                },
                Some(m) => {
                    let (layers, halt) = self.walk_chain(&m.chain);
                    match halt {
                        Halt::Redirect(n) => {
                            match &self.tree.node(n).redirect {
                                Some(next) => {
                                    if hops >= self.max_hops {
                                        return Planned::bare(Stop::RedirectLoop);
                                    }
                                    target = next.clone();
                                    hops = hops + 1;
                                },
                                None => {
                                    return Planned::bare(Stop::NotFound);
                                },
                            }
                        },
                        Halt::Gate(n) => {
                            return Planned { stop: Stop::Gate(n), layers, params: m.params };
                        },
                        Halt::Slot(n) => {
                            return Planned { stop: Stop::Slot(n), layers, params: m.params };
                        },
                        Halt::Through => {
                            return Planned { stop: Stop::Complete, layers, params: m.params };
                        },
                    }
                },
            }
        }
    }

    /// Starts what the navigation stops at.
    fn kick(&mut self, stop: Stop, retry: bool) -> (effect: Option<Effect>)
        requires
            old(self).wf(),
            stop matches Stop::Gate(n) ==> n < old(self).routes().nodes().len(),
            stop matches Stop::Slot(n) ==> n < old(self).routes().nodes().len(),
        ensures
            final(self).wf(),
            final(self).routes() == old(self).routes(),
            final(self).hop_bound() == old(self).hop_bound(),
            final(self).location() == old(self).location(),
            (final(self)@, effect) == kicked(old(self).routes().nodes(), old(self)@, stop, retry),
    {
        let ghost before = self@;
        match stop {
            Stop::Bootstrap => {
                if self.bootstrap.is_none() {
                    let gate = Gate::mount(GateKind::Bootstrap);
                    let ticket = gate.ticket();
                    self.bootstrap = Some(gate);
                    assert(self@.sessions =~= before.sessions);
                    Some(Effect::StartCheck { gate: GateRef::Bootstrap, ticket })
                } else {
                    None
                }
            },
            Stop::Gate(n) => {
                if self.sessions[n].is_none() {
                    let gate = Gate::mount(GateKind::Session);
                    let ticket = gate.ticket();
                    self.sessions.set(n, Some(gate));
                    assert(self@.sessions =~= before.sessions.update(
                        n as int,
                        Some(GateModel::mounted(GateKind::Session)),
                    ));
                    Some(Effect::StartCheck { gate: GateRef::Session(n), ticket })
                } else {
                    None
                }
            },
            Stop::Slot(n) => {
                let mut slot = self.slots[n];
                let start = match slot {
                    LazySlot::Unloaded => true,
                    LazySlot::Failed(_) => retry,
                    _ => false,
                };
                match self.tree.node(n).lazy_view {
                    Some(view) => {
                        if start {
                            slot.resolve();
                            self.slots.set(n, slot);
                            assert(self@.sessions =~= before.sessions);
                            Some(Effect::StartLoad { node: n, view })
                        } else {
                            None
                        }
                    },
                    None => None,
                }
            },
            _ => None,
        }
    }

    /// What is rendered innermost where the navigation stops at `stop`.
    fn terminal(&self, stop: Stop) -> (t: Terminal)
        requires
            self.wf(),
            stop matches Stop::Gate(n) ==> n < self.routes().nodes().len(),
            stop matches Stop::Slot(n) ==> n < self.routes().nodes().len(),
        ensures
            t == terminal_at(self@, stop, self.routes().fallback()),
    {
        match stop {
            Stop::Bootstrap => match self.bootstrap {
                Some(gate) => if gate.state() == GateState::Failed {
                    Terminal::GateFailure(GateKind::Bootstrap)
                } else {
                    Terminal::GateFallback(GateKind::Bootstrap)
                },
                None => Terminal::GateFallback(GateKind::Bootstrap),
            },
            Stop::NotFound => Terminal::NotFound(self.tree.not_found()),
            Stop::RedirectLoop => Terminal::RedirectFailure,
            Stop::Gate(n) => match self.sessions[n] {
                Some(gate) => if gate.state() == GateState::Failed {
                    Terminal::GateFailure(GateKind::Session)
                } else {
                    Terminal::GateFallback(GateKind::Session)
                },
                None => Terminal::GateFallback(GateKind::Session),
            },
            Stop::Slot(n) => match self.slots[n] {
                LazySlot::Failed(fault) => Terminal::LoadFailure(n, fault),
                _ => Terminal::LoadFallback(n),
            },
            Stop::Complete => Terminal::Complete,
        }
    }

    /// One navigation step to `path`.
    fn advance(&mut self, path: &str, retry: bool) -> (nav: Navigation)
        requires
            old(self).wf(),
        ensures
            final(self).wf(),
            final(self).routes() == old(self).routes(),
            final(self).hop_bound() == old(self).hop_bound(),
            final(self).location() == old(self).location(),
            (final(self)@, nav.decision@, nav.effect) == step(
                old(self).routes().nodes(),
                old(self).routes().fallback(),
                old(self)@,
                path@,
                old(self).hop_bound(),
                retry,
            ),
    {
        let planned = self.plan_route(path);
        let effect = self.kick(planned.stop, retry);
        let terminal = self.terminal(planned.stop);
        let decision = RenderDecision { layers: planned.layers, terminal, params: planned.params };
        Navigation { decision, effect }
    }

    /// Navigates to `path`: says what to render now, and which check or load
    /// the caller has to start, if any.
    ///
    /// Nothing is matched before the bootstrap gate is satisfied. Then the
    /// path is matched, redirects are followed within the bound, and the
    /// matched chain is walked from the root down to the first node that
    /// cannot render yet. A gate found there unmounted is mounted, a module
    /// never loaded, or one whose load failed, is asked for; what is in
    /// flight already is waited for.
    pub fn navigate(&mut self, path: &str) -> (nav: Navigation)
        requires
            old(self).wf(),
        ensures
            final(self).wf(),
            final(self).routes() == old(self).routes(),
            final(self).hop_bound() == old(self).hop_bound(),
            final(self).location() == Some(path@),
            (final(self)@, nav.decision@, nav.effect) == step(
                old(self).routes().nodes(),
                old(self).routes().fallback(),
                old(self)@,
                path@,
                old(self).hop_bound(),
                true,
            ),
    {
        let nav = self.advance(path, true);
        self.current = Some(path.to_owned());
        nav
    }

    /// Goes on with the last navigation after a check or a load has
    /// reported: says what to render now, and what to start next. A module
    /// whose load failed is not asked for again; its error view is rendered.
    /// Before the first navigation there is nothing to go on with.
    pub fn resume(&mut self) -> (nav: Option<Navigation>)
        requires
            old(self).wf(),
        ensures
            final(self).wf(),
            final(self).routes() == old(self).routes(),
            final(self).hop_bound() == old(self).hop_bound(),
            final(self).location() == old(self).location(),
            match old(self).location() {
                None => nav is None && final(self)@ == old(self)@,
                Some(path) => nav matches Some(x) && (final(self)@, x.decision@, x.effect) == step(
                    old(self).routes().nodes(),
                    old(self).routes().fallback(),
                    old(self)@,
                    path,
                    old(self).hop_bound(),
                    false,
                ),
            },
    {
        let path = match &self.current {
            Some(path) => path.clone(),
            None => {
                return None;
            },
        };
        Some(self.advance(path.as_str(), false))
    }

    /// Takes the result of the check of `gate` that was started under
    /// `ticket`: `Some(answer)`, or `None` where the check broke down.
    /// Returns whether the result was applied. A result for a gate that is
    /// not mounted, under a ticket other than its latest, or for a
    /// gate that is not waiting, is dropped.
    pub fn check_resolved(&mut self, gate: GateRef, ticket: u64, outcome: Option<bool>) -> (applied:
        bool)
        requires
            old(self).wf(),
        ensures
            final(self).wf(),
            final(self).routes() == old(self).routes(),
            final(self).hop_bound() == old(self).hop_bound(),
            final(self).location() == old(self).location(),
            final(self)@ == checked(old(self)@, gate, ticket as nat, outcome),
            applied == (gate_named(old(self)@, gate) matches Some(g) && g.accepts(ticket as nat)),
    {
        let ghost before = self@;
        match gate {
            GateRef::Bootstrap => match self.bootstrap {
                Some(mut found) => {
                    let applied = found.resolve(ticket, outcome);
                    self.bootstrap = Some(found);
                    assert(self@.sessions =~= before.sessions);
                    applied
                },
                None => false,
            },
            GateRef::Session(n) => {
                if n >= self.sessions.len() {
                    return false;
                }
                match self.sessions[n] {
                    Some(mut found) => {
                        let ghost was = found@;
                        let applied = found.resolve(ticket, outcome);
                        self.sessions.set(n, Some(found));
                        assert(self@.sessions =~= before.sessions.update(
                            n as int,
                            Some(was.resolved(ticket as nat, outcome)),
                        ));
                        applied
                    },
                    None => false,
                }
            },
        }
    }

    /// Takes the outcome of the load for the node. Returns whether a load
    /// was in flight there; where none was, the report is dropped.
    pub fn load_settled(&mut self, node: usize, outcome: Result<ModuleId, LoadFault>) -> (applied:
        bool)
        requires
            old(self).wf(),
        ensures
            final(self).wf(),
            final(self).routes() == old(self).routes(),
            final(self).hop_bound() == old(self).hop_bound(),
            final(self).location() == old(self).location(),
            final(self)@ == settled(old(self)@, node, outcome),
            applied == (node < old(self)@.slots.len() && old(self)@.slots[node as int] is Loading),
    {
        let ghost before = self@;
        if node >= self.slots.len() {
            return false;
        }
        let mut slot = self.slots[node];
        let applied = slot.settle(outcome);
        self.slots.set(node, slot);
        assert(self@.sessions =~= before.sessions);
        applied
    }

    /// Whether the session gate at the node can take one more token: it
    /// cannot where the tickets of a gate mounted there are used up.
    pub open spec fn has_ticket_left(&self, node: usize) -> bool {
        gate_named(self@, GateRef::Session(node)) matches Some(g) ==> g.ticket < u64::MAX
    }

    /// Whether the session gate at the node can take one more token.
    pub fn can_change_token(&self, node: usize) -> (yes: bool)
        ensures
            yes == self.has_ticket_left(node),
    {
        if node >= self.sessions.len() {
            return true;
        }
        match self.sessions[node] {
            Some(gate) => gate.can_trigger(),
            None => true,
        }
    }

    /// The session token of a gate mounted at the node has changed: that
    /// gate waits again, and a new check is owed under the ticket returned.
    /// Where no gate is mounted at the node, nothing happens.
    pub fn token_changed(&mut self, node: usize) -> (effect: Option<Effect>)
        requires
            old(self).wf(),
            old(self).has_ticket_left(node),
        ensures
            final(self).wf(),
            final(self).routes() == old(self).routes(),
            final(self).hop_bound() == old(self).hop_bound(),
            final(self).location() == old(self).location(),
            final(self)@ == retriggered(old(self)@, node),
            effect == match gate_named(old(self)@, GateRef::Session(node)) {
                Some(g) => Some(
                    Effect::StartCheck { gate: GateRef::Session(node), ticket: (g.ticket + 1) as u64 },
                ),
                None => None,
            },
    {
        let ghost before = self@;
        if node >= self.sessions.len() {
            return None;
        }
        match self.sessions[node] {
            Some(mut found) => {
                let ghost was = found@;
                assert(before.sessions[node as int] == Some(was));
                let owed = found.trigger();
                self.sessions.set(node, Some(found));
                assert(self@.sessions =~= before.sessions.update(node as int, Some(was.triggered())));
                match owed {
                    Some(ticket) => Some(Effect::StartCheck { gate: GateRef::Session(node), ticket }),
                    None => None,
                }
            },
            None => None,
        }
    }

    /// The route tree.
    pub fn tree(&self) -> (tree: &RouteTree)
        ensures
            *tree == self.routes(),
    {
        &self.tree
    }

    /// How many redirects one navigation may follow.
    pub fn max_hops(&self) -> (max: usize)
        ensures
            max == self.hop_bound(),
    {
        self.max_hops
    }

    /// The path of the last navigation.
    pub fn current(&self) -> (path: Option<String>)
        ensures
            match path {
                Some(p) => self.location() == Some(p@),
                None => self.location() is None,
            },
    {
        match &self.current {
            Some(path) => Some(path.clone()),
            None => None,
        }
    }

    /// The state of what `gate` names, where it is mounted.
    pub fn gate_state(&self, gate: GateRef) -> (state: Option<GateState>)
        ensures
            state == match gate_named(self@, gate) {
                Some(g) => Some(g.state),
                None => None,
            },
    {
        let found = match gate {
            GateRef::Bootstrap => self.bootstrap,
            GateRef::Session(n) => if n < self.sessions.len() {
                self.sessions[n]
            } else {
                None
            },
        };
        match found {
            Some(g) => Some(g.state()),
            None => None,
        }
    }

    /// The slot of the node, where the tree has that node.
    pub fn slot(&self, node: usize) -> (slot: Option<LazySlot>)
        ensures
            slot == if node < self@.slots.len() {
                Some(self@.slots[node as int])
            } else {
                None
            },
    {
        if node < self.slots.len() {
            Some(self.slots[node])
        } else {
            None
        }
    }
}

} // verus!
