//! Asynchronous gates: preconditions that a subtree waits for before it renders.
//!
//! A gate does not run its check. It says when a check is owed, hands out a
//! ticket for it, and takes the result back under that ticket. Only the
//! result of the check that was started last is ever applied: whatever comes
//! back under an older ticket is dropped.

use crate::route::GateKind;
use vstd::prelude::*;

verus! {

/// What a gate currently knows about its precondition.
#[derive(Clone, Copy, Debug, PartialEq, Eq, Structural)]
pub enum GateState {
    /// A check is in flight and has not reported yet.
    Pending,
    /// The latest check reported that the precondition holds.
    Satisfied,
    /// The latest check reported that it does not hold, or broke down.
    Failed,
}

/// What stands in the place of a gated subtree.
#[derive(Clone, Copy, Debug, PartialEq, Eq, Structural)]
pub enum GateView {
    /// A placeholder, while the check is in flight.
    Fallback,
    /// The failure view.
    Failure,
    /// The subtree itself.
    Children,
}

/// The state that a check's result leaves a gate in: satisfied by a plain
/// yes, failed by a no and by a check that gave no answer.
pub open spec fn state_after(outcome: Option<bool>) -> GateState {
    if outcome == Some(true) {
        GateState::Satisfied
    } else {
        GateState::Failed
    }
}

/// A gate, as plain values.
pub ghost struct GateModel {
    pub kind: GateKind,
    pub state: GateState,
    /// The ticket of the check that was started last.
    pub ticket: nat,
}

impl GateModel {
    /// A gate as it is mounted: its first check is in flight under ticket 0.
    pub open spec fn mounted(kind: GateKind) -> GateModel {
        GateModel { kind, state: GateState::Pending, ticket: 0 }
    }

    /// A gate after its trigger fired. A session gate starts a new check
    /// under the next ticket. The bootstrap gate is checked once and for all,
    /// and stays as it is.
    pub open spec fn triggered(self) -> GateModel {
        match self.kind {
            GateKind::Session => GateModel {
                kind: self.kind,
                state: GateState::Pending,
                ticket: self.ticket + 1,
            },
            GateKind::Bootstrap => self,
        }
    }

    /// Whether a result that comes back under `ticket` is applied.
    pub open spec fn accepts(self, ticket: nat) -> bool {
        self.state == GateState::Pending && ticket == self.ticket
    }

    /// A gate after a result came back under `ticket`.
    pub open spec fn resolved(self, ticket: nat, outcome: Option<bool>) -> GateModel {
        if self.accepts(ticket) {
            GateModel { kind: self.kind, state: state_after(outcome), ticket: self.ticket }
        } else {
            self
        }
    }

    /// What this gate shows.
    pub open spec fn shows(self) -> GateView {
        match self.state {
            GateState::Pending => GateView::Fallback,
            GateState::Failed => GateView::Failure,
            GateState::Satisfied => GateView::Children,
        }
    }
}

/// One mounted gate.
#[derive(Clone, Copy, Debug, PartialEq, Eq)]
pub struct Gate {
    kind: GateKind,
    state: GateState,
    ticket: u64,
}

impl View for Gate {
    type V = GateModel;

    closed spec fn view(&self) -> GateModel {
        GateModel { kind: self.kind, state: self.state, ticket: self.ticket as nat }
    }
}

impl Gate {
    /// Mounts a gate. Its first check is owed at once, under the ticket that
    /// `ticket` returns.
    pub fn mount(kind: GateKind) -> (gate: Gate)
        ensures
            gate@ == GateModel::mounted(kind),
    {
        Gate { kind, state: GateState::Pending, ticket: 0 }
    }

    /// The kind of this gate.
    pub fn kind(&self) -> (kind: GateKind)
        ensures
            kind == self@.kind,
    {
        self.kind
    }

    /// The state of this gate.
    pub fn state(&self) -> (state: GateState)
        ensures
            state == self@.state,
    {
        self.state
    }

    /// The ticket of the check that was started last.
    pub fn ticket(&self) -> (ticket: u64)
        ensures
            ticket == self@.ticket,
    {
        self.ticket
    }

    /// Whether the trigger can fire once more: the next ticket must exist.
    pub fn can_trigger(&self) -> (yes: bool)
        ensures
            yes == (self@.ticket < u64::MAX),
    {
        self.ticket < u64::MAX
    }

    /// The trigger fired with a new value. Returns the ticket of the check
    /// that is now owed, or nothing where this gate does not check again.
    pub fn trigger(&mut self) -> (owed: Option<u64>)
        requires
            old(self)@.ticket < u64::MAX,
        ensures
            final(self)@ == old(self)@.triggered(),
            owed == match old(self)@.kind {
                GateKind::Session => Some((old(self)@.ticket + 1) as u64),
                GateKind::Bootstrap => None,
            },
    {
        match self.kind {
            GateKind::Session => {
                self.state = GateState::Pending;
                self.ticket = self.ticket + 1;
                Some(self.ticket)
            },
            GateKind::Bootstrap => None,
        }
    }

    /// The check started under `ticket` came back: with `Some(answer)`, or
    /// with `None` where it broke down. Returns whether the result was
    /// applied; one that comes under a ticket other than the latest, or after
    /// the latest check has already reported, is dropped.
    pub fn resolve(&mut self, ticket: u64, outcome: Option<bool>) -> (applied: bool)
        ensures
            final(self)@ == old(self)@.resolved(ticket as nat, outcome),
            applied == old(self)@.accepts(ticket as nat),
    {
        if self.state == GateState::Pending && ticket == self.ticket {
            self.state = match outcome {
                Some(true) => GateState::Satisfied,
                _ => GateState::Failed,
            };
            true
        } else {
            false
        }
    }

    /// What stands in the place of the gated subtree.
    pub fn shows(&self) -> (view: GateView)
        ensures
            view == self@.shows(),
    {
        match self.state {
            GateState::Pending => GateView::Fallback,
            GateState::Failed => GateView::Failure,
            GateState::Satisfied => GateView::Children,
        }
    }
}

/// The last trigger wins: where the trigger of a session gate fires twice
/// before the first check reports, the first check's result changes nothing
/// whenever it arrives, and that gate ends in the state that the second
/// check's result calls for.
pub proof fn law_last_trigger_wins(gate: GateModel, first: Option<bool>, second: Option<bool>)
    requires
        gate.kind == GateKind::Session,
    ensures
        ({
            let once = gate.triggered();
            let twice = once.triggered();
            &&& twice.state == GateState::Pending
            &&& twice.resolved(once.ticket, first) == twice
            &&& twice.resolved(once.ticket, first).resolved(twice.ticket, second).state
                == state_after(second)
            &&& twice.resolved(twice.ticket, second).resolved(once.ticket, first).state
                == state_after(second)
        }),
{
}

/// A result is applied only under the ticket of the latest check, and only
/// once: under any other ticket, and after a gate has left the pending
/// state, it changes nothing.
pub proof fn law_stale_results_dropped(gate: GateModel, ticket: nat, outcome: Option<bool>)
    ensures
        ticket != gate.ticket ==> gate.resolved(ticket, outcome) == gate,
        gate.state != GateState::Pending ==> gate.resolved(ticket, outcome) == gate,
        gate.kind == GateKind::Session && ticket <= gate.ticket ==> gate.triggered().resolved(
            ticket,
            outcome,
        ) == gate.triggered(),
{
}

/// The bootstrap gate is checked once: no trigger starts a second check, and
/// once it is satisfied nothing takes that back.
pub proof fn law_bootstrap_settles_once(gate: GateModel, ticket: nat, outcome: Option<bool>)
    requires
        gate.kind == GateKind::Bootstrap,
    ensures
        gate.triggered() == gate,
        gate.state == GateState::Satisfied ==> gate.resolved(ticket, outcome) == gate,
{
}

} // verus!
