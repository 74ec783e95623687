//! The bounded tick counter that drives a run and signals its end.
use vstd::prelude::*;

verus! {

/// Whether the run still schedules ticks.
#[derive(Clone, Copy, Debug, PartialEq, Eq, Structural)]
pub enum RunState {
    Running,
    Terminated,
}

/// What the caller has to do after one tick of the counter.
#[derive(Clone, Copy, Debug, PartialEq, Eq, Structural)]
pub enum TickOutcome {
    /// Execute one force/integration step.
    Step,
    /// The budget is spent: stop the run. Emitted exactly once.
    Terminate,
    /// The run has already ended: nothing to do.
    Idle,
}

/// The tick counter of a run: `elapsed_ticks` steps done out of `max_ticks`.
#[derive(Clone, Copy, Debug, PartialEq, Eq, Structural)]
pub struct RunLoop {
    pub elapsed_ticks: i64,
    pub max_ticks: i64,
    pub state: RunState,
}

/// A fresh run with budget `max_ticks`.
pub open spec fn fresh(max_ticks: i64) -> RunLoop {
    RunLoop { elapsed_ticks: 0, max_ticks, state: RunState::Running }
}

/// One tick of the counter: the next state and what the caller must do.
pub open spec fn tick_spec(s: RunLoop) -> (RunLoop, TickOutcome) {
    match s.state {
        RunState::Terminated => (s, TickOutcome::Idle),
        RunState::Running => if s.elapsed_ticks < s.max_ticks {
            (RunLoop { elapsed_ticks: (s.elapsed_ticks + 1) as i64, ..s }, TickOutcome::Step)
        } else {
            (RunLoop { state: RunState::Terminated, ..s }, TickOutcome::Terminate)
        },
    }
}

/// The state after `k` ticks from `s`.
pub open spec fn state_after(s: RunLoop, k: nat) -> RunLoop
    decreases k,
{
    if k == 0 {
        s
    } else {
        tick_spec(state_after(s, (k - 1) as nat)).0
    }
}

/// What the `k`-th tick from `s` (counting from zero) asks of the caller.
pub open spec fn outcome_at(s: RunLoop, k: nat) -> TickOutcome {
    tick_spec(state_after(s, k)).1
}

impl RunLoop {
    /// A run that will execute `max_ticks` steps (none when it is not positive).
    pub fn new(max_ticks: i64) -> (r: RunLoop)
        ensures
            r == fresh(max_ticks),
    {
        RunLoop { elapsed_ticks: 0, max_ticks, state: RunState::Running }
    }

    /// Advances the counter by one tick: while the budget lasts it counts the
    /// tick and asks for a step; the first tick past it ends the run and asks
    /// for termination; every later tick does nothing.
    pub fn tick(&mut self) -> (r: TickOutcome)
        ensures
            (*final(self), r) == tick_spec(*old(self)),
    {
        match self.state {
            RunState::Terminated => TickOutcome::Idle,
            RunState::Running => {
                if self.elapsed_ticks < self.max_ticks {
                    self.elapsed_ticks = self.elapsed_ticks + 1;
                    TickOutcome::Step
                } else {
                    self.state = RunState::Terminated;
                    TickOutcome::Terminate
                }
            },
        }
    }

    /// Whether the run has ended.
    pub fn is_terminated(&self) -> (r: bool)
        ensures
            r == (self.state == RunState::Terminated),
    {
        match self.state {
            RunState::Terminated => true,
            RunState::Running => false,
        }
    }
}

/// During the first `k` ticks of a fresh run with a budget of at least `k`,
/// each tick asks for a step and the counter reaches `k`.
proof fn lemma_counting(max_ticks: i64, k: nat)
    requires
        k <= max_ticks,
    ensures
        state_after(fresh(max_ticks), k) == (RunLoop { elapsed_ticks: k as i64, ..fresh(max_ticks) }),
        forall|j: nat| j < k ==> outcome_at(fresh(max_ticks), j) == TickOutcome::Step,
    decreases k,
{
    if k > 0 {
        lemma_counting(max_ticks, (k - 1) as nat);
        assert(outcome_at(fresh(max_ticks), (k - 1) as nat) == TickOutcome::Step);
    }
}

/// Once terminated, a run stays terminated and every tick is idle.
proof fn lemma_absorbing(s: RunLoop, k: nat)
    requires
        s.state == RunState::Terminated,
    ensures
        state_after(s, k) == s,
        outcome_at(s, k) == TickOutcome::Idle,
    decreases k,
{
    if k > 0 {
        lemma_absorbing(s, (k - 1) as nat);
    }
}

/// A fresh run with a budget of `max_ticks >= 0` asks for exactly
/// `max_ticks` steps, on its first `max_ticks` ticks; the next tick asks for
/// termination, the one signal of the run, and every tick after it is idle.
pub proof fn lemma_run_steps_then_terminates(max_ticks: i64)
    requires
        max_ticks >= 0,
    ensures
        forall|k: nat| k < max_ticks ==> outcome_at(fresh(max_ticks), k) == TickOutcome::Step,
        outcome_at(fresh(max_ticks), max_ticks as nat) == TickOutcome::Terminate,
        forall|k: nat| k > max_ticks ==> outcome_at(fresh(max_ticks), k) == TickOutcome::Idle,
        forall|k: nat| k > max_ticks ==> state_after(fresh(max_ticks), k).state == RunState::Terminated,
{
    let m = max_ticks as nat;
    lemma_counting(max_ticks, m);
    let done = state_after(fresh(max_ticks), m + 1);
    assert(done.state == RunState::Terminated);
    assert forall|k: nat| k > max_ticks implies #[trigger] state_after(fresh(max_ticks), k) == done by {
        lemma_absorbing(done, (k - (m + 1)) as nat);
        lemma_state_after_add(fresh(max_ticks), m + 1, (k - (m + 1)) as nat);
    }
}

/// Ticking `a` times and then `b` times is ticking `a + b` times.
proof fn lemma_state_after_add(s: RunLoop, a: nat, b: nat)
    ensures
        state_after(state_after(s, a), b) == state_after(s, a + b),
    decreases b,
{
    if b > 0 {
        lemma_state_after_add(s, a, (b - 1) as nat);
        assert((a + b - 1) as nat == a + (b - 1) as nat);
    }
}

} // verus!
