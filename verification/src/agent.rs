//! The agent's Think / Act / Observe loop as a state machine: the caller
//! asks it for the next step, performs the action it names, and hands the
//! outcome back.

use vstd::prelude::*;
use crate::driver::{Action, ActionResult};

verus! {

/// Most rounds one run of the loop takes.
pub const MAX_ROUNDS: usize = 100;

/// Phase the deciding side reports for a round.
#[derive(Debug, Clone, Copy, PartialEq, Eq, Structural)]
pub enum Phase {
    Think,
    Act,
    Observe,
    Done,
}

/// One entry of the loop's history.
#[derive(Debug, Clone)]
pub struct Step {
    pub phase: Phase,
    pub action: Option<Action>,
    pub result: Option<ActionResult>,
}

/// The step that closes a run.
pub open spec fn done_step(s: Step) -> bool {
    s.phase == Phase::Done && s.action is None && s.result is None
}

/// A completed round: a phase other than `Done`, the screenshot action
/// and the result the backend gave for it.
pub open spec fn round_step(s: Step) -> bool {
    &&& s.phase != Phase::Done
    &&& s.action matches Some(Action::Screenshot)
    &&& s.result is Some
}

/// State of one run of the agent loop.
pub struct AgentLoop {
    history: Vec<Step>,
    rounds: usize,
    pending: Option<Phase>,
    finished: bool,
}

impl AgentLoop {
    /// The steps recorded so far.
    pub closed spec fn steps(&self) -> Seq<Step> {
        self.history@
    }

    /// Number of completed rounds.
    pub closed spec fn rounds(&self) -> nat {
        self.rounds as nat
    }

    /// The phase of the round whose action awaits its result, if any.
    pub closed spec fn pending(&self) -> Option<Phase> {
        self.pending
    }

    /// Whether the deciding side has ended the run.
    pub closed spec fn finished(&self) -> bool {
        self.finished
    }

    /// The loop expects the next decision.
    pub open spec fn awaiting_decision(&self) -> bool {
        !self.finished() && self.pending() is None && self.rounds() < MAX_ROUNDS
    }

    /// The loop expects the result of the action it asked for.
    pub open spec fn awaiting_result(&self) -> bool {
        self.pending() is Some
    }

    /// Well-formed state: the history holds one completed round per round,
    /// followed by the closing step once the run is finished.
    pub open spec fn wf(&self) -> bool {
        &&& self.rounds() <= MAX_ROUNDS
        &&& self.steps().len() == self.rounds() + if self.finished() { 1nat } else { 0nat }
        &&& forall|i: int| 0 <= i < self.rounds() ==> round_step(#[trigger] self.steps()[i])
        &&& self.finished() ==> self.rounds() < MAX_ROUNDS && done_step(self.steps().last())
        &&& self.pending() matches Some(p) ==> !self.finished() && self.rounds() < MAX_ROUNDS && p
            != Phase::Done
    }

    /// A fresh run: no steps, nothing pending.
    pub fn new() -> (l: Self)
        ensures
            l.wf(),
            l.steps() == Seq::<Step>::empty(),
            l.rounds() == 0,
            l.pending() is None,
            !l.finished(),
    {
        AgentLoop { history: Vec::new(), rounds: 0, pending: None, finished: false }
    }

    /// Whether the loop expects the next decision.
    pub fn awaits_decision(&self) -> (b: bool)
        ensures
            b == self.awaiting_decision(),
    {
        !self.finished && self.pending.is_none() && self.rounds < MAX_ROUNDS
    }

    /// Whether the loop expects the result of an action.
    pub fn awaits_result(&self) -> (b: bool)
        ensures
            b == self.awaiting_result(),
    {
        self.pending.is_some()
    }

    /// Take the deciding side's phase. `Done` closes the run and asks for
    /// nothing; any other phase asks for a screenshot.
    pub fn decide(&mut self, phase: Phase) -> (next: Option<Action>)
        requires
            old(self).wf(),
            old(self).awaiting_decision(),
        ensures
            final(self).wf(),
            final(self).rounds() == old(self).rounds(),
            phase == Phase::Done ==> {
                &&& next is None
                &&& final(self).finished()
                &&& final(self).pending() is None
                &&& final(self).steps().len() == old(self).steps().len() + 1
                &&& final(self).steps().drop_last() == old(self).steps()
                &&& done_step(final(self).steps().last())
            },
            phase != Phase::Done ==> {
                &&& next matches Some(Action::Screenshot)
                &&& !final(self).finished()
                &&& final(self).pending() == Some(phase)
                &&& final(self).steps() == old(self).steps()
            },
    {
        if phase == Phase::Done {
            self.history.push(Step { phase, action: None, result: None });
            self.finished = true;
            assert(self.history@.drop_last() =~= old(self).history@);
            None
        } else {
            self.pending = Some(phase);
            Some(Action::Screenshot)
        }
    }

    /// Record the result of the requested screenshot, completing a round.
    pub fn observe(&mut self, result: ActionResult)
        requires
            old(self).wf(),
            old(self).awaiting_result(),
        ensures
            final(self).wf(),
            final(self).rounds() == old(self).rounds() + 1,
            final(self).pending() is None,
            !final(self).finished(),
            final(self).steps().len() == old(self).steps().len() + 1,
            final(self).steps().drop_last() == old(self).steps(),
            final(self).steps().last().phase == old(self).pending()->0,
            final(self).steps().last().action matches Some(Action::Screenshot),
            final(self).steps().last().result == Some(result),
    {
        let phase = match self.pending {
            Some(p) => p,
            None => Phase::Think,
        };
        self.history.push(Step { phase, action: Some(Action::Screenshot), result: Some(result) });
        self.rounds = self.rounds + 1;
        self.pending = None;
        assert(self.history@.drop_last() =~= old(self).history@);
    }

    /// The steps recorded so far.
    pub fn history(&self) -> (h: &Vec<Step>)
        ensures
            h@ == self.steps(),
    {
        &self.history
    }

    /// The recorded steps.
    pub fn into_history(self) -> (h: Vec<Step>)
        ensures
            h@ == self.steps(),
    {
        self.history
    }
}

/// Every run is short and well shaped: it holds at most `MAX_ROUNDS`
/// steps, each a completed screenshot round, except that the last may be
/// the closing `Done` step; and a run that expects neither a decision nor
/// a result is over, because it was closed or used up its rounds.
pub proof fn lemma_run_shape(l: AgentLoop)
    requires
        l.wf(),
    ensures
        l.steps().len() <= MAX_ROUNDS,
        forall|i: int|
            0 <= i < l.steps().len() ==> round_step(#[trigger] l.steps()[i]) || (i == l.steps().len()
                - 1 && done_step(l.steps()[i])),
        !l.awaiting_decision() && !l.awaiting_result() ==> l.finished() || l.rounds() == MAX_ROUNDS,
{
}

} // verus!
