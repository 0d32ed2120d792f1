use vstd::prelude::*;
use crate::error::Error;

verus! {

/// How a run of the instruction stream ended.
#[derive(Clone, Copy, Debug, PartialEq, Eq, Structural)]
pub enum Outcome {
    /// The program counter reached the `until` address.
    Completed,
    /// A stop was requested.
    Stopped,
    /// The wall-clock budget ran out.
    TimedOut,
    /// The instruction budget ran out.
    BudgetExhausted,
    /// An architectural or memory exception ended the run.
    Faulted(Error),
}

/// What the driver of the instruction stream does next.
#[derive(Clone, Copy, Debug, PartialEq, Eq, Structural)]
pub enum Step {
    /// Dispatch the code hooks at this address, then execute the instruction.
    Execute(u64),
    /// The run is over.
    Finish(Outcome),
}

/// The state of the execution controller.
#[derive(Clone, Copy, Debug, PartialEq, Eq, Structural)]
pub struct ExecState {
    pub running: bool,
    pub pc: u64,
    pub until: u64,
    /// Wall-clock budget; 0 means unlimited.
    pub timeout: u64,
    /// Instruction budget; 0 means unlimited.
    pub budget: u64,
    pub executed: u64,
    pub stop_requested: bool,
}

/// The decision taken at an instruction boundary, `elapsed` wall-clock units
/// into the run.
pub open spec fn decide(s: ExecState, elapsed: u64) -> Step {
    if !s.running || s.stop_requested {
        Step::Finish(Outcome::Stopped)
    } else if s.pc == s.until {
        Step::Finish(Outcome::Completed)
    } else if s.budget != 0 && s.executed >= s.budget {
        Step::Finish(Outcome::BudgetExhausted)
    } else if s.timeout != 0 && elapsed >= s.timeout {
        Step::Finish(Outcome::TimedOut)
    } else {
        Step::Execute(s.pc)
    }
}

/// The decision at an instruction boundary when reaching any of `exits`
/// also ends the run as completed.
pub open spec fn decide_with_exits(s: ExecState, elapsed: u64, exits: Seq<u64>) -> Step {
    match decide(s, elapsed) {
        Step::Execute(pc) => if exits.contains(pc) {
            Step::Finish(Outcome::Completed)
        } else {
            Step::Execute(pc)
        },
        other => other,
    }
}

/// The status that a finished run reports to the caller of `start`.
pub open spec fn outcome_status(o: Outcome) -> Result<(), Error> {
    match o {
        Outcome::Faulted(e) => Err(e),
        _ => Ok(()),
    }
}

/// Once a stop has been requested, the run ends at the next instruction
/// boundary: the instruction in flight may retire, and no further one is
/// executed, whatever the budgets say.
pub proof fn lemma_stop_ends_run(s: ExecState, next_pc: u64, elapsed: u64)
    requires
        s.stop_requested,
    ensures
        decide(s, elapsed) == Step::Finish(Outcome::Stopped),
        decide(ExecState { pc: next_pc, executed: s.executed, ..s }, elapsed) == Step::Finish(
            Outcome::Stopped,
        ),
        decide(
            ExecState {
                pc: next_pc,
                executed: if s.executed == u64::MAX {
                    u64::MAX
                } else {
                    (s.executed + 1) as u64
                },
                ..s
            },
            elapsed,
        ) == Step::Finish(Outcome::Stopped),
{
}

/// Drives the instruction stream of one engine: Idle, then Running until a
/// stop condition holds, then Idle again.
pub struct Controller {
    st: ExecState,
}

impl View for Controller {
    type V = ExecState;

    closed spec fn view(&self) -> ExecState {
        self.st
    }
}

impl Outcome {
    /// The status that this outcome reports to the caller of `start`.
    pub fn status(self) -> (r: Result<(), Error>)
        ensures
            r == outcome_status(self),
    {
        match self {
            Outcome::Faulted(e) => Err(e),
            _ => Ok(()),
        }
    }
}

impl Controller {
    /// An idle controller.
    pub fn new() -> (r: Controller)
        ensures
            !r@.running,
            !r@.stop_requested,
            r@.executed == 0,
    {
        Controller {
            st: ExecState {
                running: false,
                pc: 0,
                until: 0,
                timeout: 0,
                budget: 0,
                executed: 0,
                stop_requested: false,
            },
        }
    }

    /// Whether a run is in progress.
    pub fn is_running(&self) -> (r: bool)
        ensures
            r == self@.running,
    {
        self.st.running
    }

    /// The program counter.
    pub fn pc(&self) -> (r: u64)
        ensures
            r == self@.pc,
    {
        self.st.pc
    }

    /// The number of instructions executed in the current or last run.
    pub fn executed(&self) -> (r: u64)
        ensures
            r == self@.executed,
    {
        self.st.executed
    }

    /// Begins a run at `begin` that ends when the program counter equals
    /// `until`, after `count` instructions or after `timeout` units (0: no
    /// limit). A run in progress is not restarted.
    pub fn start(&mut self, begin: u64, until: u64, timeout: u64, count: u64) -> (r: Result<(), Error>)
        ensures
            old(self)@.running ==> r == Err::<(), Error>(Error::Arg) && *final(self) == *old(self),
            !old(self)@.running ==> r is Ok && final(self)@ == (ExecState {
                running: true,
                pc: begin,
                until,
                timeout,
                budget: count,
                executed: 0,
                stop_requested: false,
            }),
    {
        if self.st.running {
            return Err(Error::Arg);
        }
        self.st = ExecState {
            running: true,
            pc: begin,
            until,
            timeout,
            budget: count,
            executed: 0,
            stop_requested: false,
        };
        Ok(())
    }

    /// Takes the decision at an instruction boundary; a finished run leaves
    /// the controller idle.
    pub fn next_step(&mut self, elapsed: u64) -> (r: Step)
        ensures
            r == decide(old(self)@, elapsed),
            r is Finish ==> final(self)@ == (ExecState { running: false, stop_requested: false, ..old(self)@ }),
            r is Execute ==> final(self)@ == old(self)@,
    {
        let s = self.st;
        let r = if !s.running || s.stop_requested {
            Step::Finish(Outcome::Stopped)
        } else if s.pc == s.until {
            Step::Finish(Outcome::Completed)
        } else if s.budget != 0 && s.executed >= s.budget {
            Step::Finish(Outcome::BudgetExhausted)
        } else if s.timeout != 0 && elapsed >= s.timeout {
            Step::Finish(Outcome::TimedOut)
        } else {
            Step::Execute(s.pc)
        };
        if let Step::Finish(_) = r {
            self.st.running = false;
            self.st.stop_requested = false;
        }
        r
    }

    /// Records that the instruction at the program counter was executed and
    /// that execution continues at `next_pc`.
    pub fn retire(&mut self, next_pc: u64)
        requires
            old(self)@.running,
        ensures
            final(self)@ == (ExecState {
                pc: next_pc,
                executed: if old(self)@.executed == u64::MAX {
                    u64::MAX
                } else {
                    (old(self)@.executed + 1) as u64
                },
                ..old(self)@
            }),
    {
        self.st.pc = next_pc;
        self.st.executed = self.st.executed.saturating_add(1);
    }

    /// Ends the run on an exception; the run reports `e`.
    pub fn fault(&mut self, e: Error) -> (r: Outcome)
        ensures
            r == Outcome::Faulted(e),
            final(self)@ == (ExecState { running: false, stop_requested: false, ..old(self)@ }),
    {
        self.st.running = false;
        self.st.stop_requested = false;
        Outcome::Faulted(e)
    }

    /// Moves the program counter to `pc`.
    pub fn set_pc(&mut self, pc: u64)
        ensures
            final(self)@ == (ExecState { pc, ..old(self)@ }),
    {
        self.st.pc = pc;
    }

    /// Ends the run because the program counter reached an exit address.
    pub fn halt(&mut self) -> (r: Outcome)
        ensures
            r == Outcome::Completed,
            final(self)@ == (ExecState { running: false, stop_requested: false, ..old(self)@ }),
    {
        self.st.running = false;
        self.st.stop_requested = false;
        Outcome::Completed
    }

    /// Asks the run in progress to end at the next instruction boundary;
    /// without one it has no effect.
    pub fn stop(&mut self) -> (r: Result<(), Error>)
        ensures
            r is Ok,
            final(self)@ == (ExecState { stop_requested: old(self)@.running, ..old(self)@ }),
    {
        self.st.stop_requested = self.st.running;
        Ok(())
    }
}

} // verus!
