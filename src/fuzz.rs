use vstd::prelude::*;
use crate::error::{AflRet, Error};

verus! {

/// Where the forkserver connection stands.
#[derive(Clone, Copy, Debug, PartialEq, Eq, Structural)]
pub enum Phase {
    NotStarted,
    AwaitingHandshake,
    Running,
    Done,
}

/// The counters and flags of a persistent fuzzing session.
#[derive(Clone, Copy, Debug, PartialEq, Eq, Structural)]
pub struct FuzzState {
    pub phase: Phase,
    /// Iterations per process generation; 0 means unbounded.
    pub iterations: u32,
    pub done: u32,
    pub crashes: u32,
    pub in_iteration: bool,
    pub always_validate: bool,
}

/// Whether the iteration budget of `s` is spent.
pub open spec fn exhausted(s: FuzzState) -> bool {
    s.iterations != 0 && s.done >= s.iterations
}

/// The session state and answer of a request for the next iteration.
pub open spec fn next_spec(s: FuzzState) -> (FuzzState, AflRet) {
    if s.phase != Phase::Running || s.in_iteration {
        (s, AflRet::Error)
    } else if exhausted(s) {
        (FuzzState { phase: Phase::Done, ..s }, AflRet::Finished)
    } else {
        (FuzzState { in_iteration: true, ..s }, AflRet::Child)
    }
}

/// The session state after the end of an iteration, `crashed` telling
/// whether the run was classified as a crash.
pub open spec fn end_spec(s: FuzzState, crashed: bool) -> FuzzState {
    if !s.in_iteration {
        s
    } else {
        FuzzState {
            in_iteration: false,
            done: if s.done == u32::MAX { u32::MAX } else { (s.done + 1) as u32 },
            crashes: if crashed && s.crashes < u32::MAX { (s.crashes + 1) as u32 } else { s.crashes },
            ..s
        }
    }
}

/// The session after `k` complete iterations, each one asked for and ended
/// without a crash.
pub open spec fn after_rounds(s: FuzzState, k: nat) -> FuzzState
    decreases k,
{
    if k == 0 {
        s
    } else {
        end_spec(next_spec(after_rounds(s, (k - 1) as nat)).0, false)
    }
}

/// A session bounded to `n` iterations grants exactly `n` of them, one per
/// request, and then answers that it is finished.
pub proof fn lemma_bounded_iterations(s: FuzzState, k: nat)
    requires
        s.phase == Phase::Running,
        !s.in_iteration,
        s.done == 0,
        s.iterations > 0,
        k <= s.iterations,
    ensures
        after_rounds(s, k).done == k,
        after_rounds(s, k).phase == Phase::Running,
        !after_rounds(s, k).in_iteration,
        after_rounds(s, k).iterations == s.iterations,
        k < s.iterations ==> next_spec(after_rounds(s, k)).1 == AflRet::Child,
        k == s.iterations ==> next_spec(after_rounds(s, k)).1 == AflRet::Finished,
    decreases k,
{
    if k > 0 {
        lemma_bounded_iterations(s, (k - 1) as nat);
    }
}

/// A persistent fuzzing session: the exit addresses that end a run and the
/// state of the iteration loop.
pub struct FuzzSession {
    st: FuzzState,
    exits: Vec<u64>,
}

impl View for FuzzSession {
    type V = FuzzState;

    closed spec fn view(&self) -> FuzzState {
        self.st
    }
}

impl FuzzSession {
    /// The exit addresses.
    pub closed spec fn exits(self) -> Seq<u64> {
        self.exits@
    }

    /// Only a session that is running has an iteration open, and a bounded
    /// one never counts past its bound nor opens an iteration beyond it.
    pub open spec fn wf(self) -> bool {
        &&& self@.in_iteration ==> self@.phase == Phase::Running
        &&& self@.iterations != 0 ==> self@.done <= self@.iterations
        &&& self@.in_iteration && self@.iterations != 0 ==> self@.done < self@.iterations
    }

    /// A session that has not yet met the fuzzer.
    pub fn new(exits: Vec<u64>, always_validate: bool, iterations: u32) -> (r: FuzzSession)
        ensures
            r.wf(),
            r.exits() == exits@,
            r@ == (FuzzState {
                phase: Phase::NotStarted,
                iterations,
                done: 0,
                crashes: 0,
                in_iteration: false,
                always_validate,
            }),
    {
        FuzzSession {
            st: FuzzState {
                phase: Phase::NotStarted,
                iterations,
                done: 0,
                crashes: 0,
                in_iteration: false,
                always_validate,
            },
            exits,
        }
    }

    /// The session's counters and flags.
    pub fn state(&self) -> (r: FuzzState)
        ensures
            r == self@,
    {
        self.st
    }

    /// Whether `pc` is one of the exit addresses.
    pub fn is_exit(&self, pc: u64) -> (r: bool)
        ensures
            r == self.exits().contains(pc),
    {
        let mut i: usize = 0;
        while i < self.exits.len()
            invariant
                i <= self.exits@.len(),
                forall|j: int| 0 <= j < i ==> self.exits@[j] != pc,
            decreases self.exits@.len() - i,
        {
            if self.exits[i] == pc {
                assert(self.exits@[i as int] == pc);
                return true;
            }
            i = i + 1;
        }
        false
    }

    /// Starts the forkserver; `attached` tells whether a fuzzer is on the
    /// other end.
    pub fn forkserver_start(&mut self, attached: bool) -> (r: AflRet)
        requires
            old(self).wf(),
        ensures
            final(self).wf(),
            final(self).exits() == old(self).exits(),
            old(self)@.phase != Phase::NotStarted ==> r == AflRet::CalledTwice && final(self)@
                == old(self)@,
            old(self)@.phase == Phase::NotStarted && !attached ==> r == AflRet::NoAfl
                && final(self)@ == old(self)@,
            old(self)@.phase == Phase::NotStarted && attached ==> r == AflRet::Child
                && final(self)@ == (FuzzState { phase: Phase::AwaitingHandshake, ..old(self)@ }),
    {
        if self.st.phase != Phase::NotStarted {
            return AflRet::CalledTwice;
        }
        if !attached {
            return AflRet::NoAfl;
        }
        self.st.phase = Phase::AwaitingHandshake;
        AflRet::Child
    }

    /// Completes the handshake; `ok` tells whether the fuzzer answered.
    pub fn handshake(&mut self, ok: bool) -> (r: AflRet)
        requires
            old(self).wf(),
        ensures
            final(self).wf(),
            final(self).exits() == old(self).exits(),
            old(self)@.phase != Phase::AwaitingHandshake ==> r == AflRet::Error && final(self)@
                == old(self)@,
            old(self)@.phase == Phase::AwaitingHandshake && ok ==> r == AflRet::Child
                && final(self)@ == (FuzzState { phase: Phase::Running, ..old(self)@ }),
            old(self)@.phase == Phase::AwaitingHandshake && !ok ==> r == AflRet::Error
                && final(self)@ == (FuzzState { phase: Phase::Done, ..old(self)@ }),
    {
        if self.st.phase != Phase::AwaitingHandshake {
            return AflRet::Error;
        }
        if ok {
            self.st.phase = Phase::Running;
            AflRet::Child
        } else {
            self.st.phase = Phase::Done;
            AflRet::Error
        }
    }

    /// Asks for the next iteration: `Child` opens one, `Finished` ends a
    /// bounded session whose iterations are spent.
    pub fn next(&mut self) -> (r: AflRet)
        requires
            old(self).wf(),
        ensures
            final(self).wf(),
            final(self).exits() == old(self).exits(),
            (final(self)@, r) == next_spec(old(self)@),
    {
        if self.st.phase != Phase::Running || self.st.in_iteration {
            return AflRet::Error;
        }
        if self.st.iterations != 0 && self.st.done >= self.st.iterations {
            self.st.phase = Phase::Done;
            return AflRet::Finished;
        }
        self.st.in_iteration = true;
        AflRet::Child
    }

    /// Whether the crash validator is to classify a run that ended with
    /// `run`: always if the session says so, else only after a fault.
    pub fn needs_validation(&self, run: Result<(), Error>) -> (r: bool)
        ensures
            r == (self@.always_validate || run is Err),
    {
        self.st.always_validate || run.is_err()
    }

    /// Closes the open iteration; `crashed` tells whether its run was a
    /// reportable crash.
    pub fn end_iteration(&mut self, crashed: bool) -> (r: Result<(), Error>)
        requires
            old(self).wf(),
        ensures
            final(self).wf(),
            final(self).exits() == old(self).exits(),
            final(self)@ == end_spec(old(self)@, crashed),
            r is Ok <==> old(self)@.in_iteration,
            r is Err ==> r == Err::<(), Error>(Error::Arg),
    {
        if !self.st.in_iteration {
            return Err(Error::Arg);
        }
        self.st.in_iteration = false;
        self.st.done = self.st.done.saturating_add(1);
        if crashed && self.st.crashes < u32::MAX {
            self.st.crashes = self.st.crashes + 1;
        }
        Ok(())
    }
    /// Closes the open iteration without a run, because the guest refused its
    /// input: it counts as an iteration without a crash.
    pub fn input_refused(&mut self) -> (r: Result<(), Error>)
        requires
            old(self).wf(),
        ensures
            final(self).wf(),
            final(self).exits() == old(self).exits(),
            final(self)@ == end_spec(old(self)@, false),
            r is Ok <==> old(self)@.in_iteration,
            r is Err ==> r == Err::<(), Error>(Error::Arg),
    {
        self.end_iteration(false)
    }

    /// Ends a running session because no input is left: any open iteration
    /// is dropped uncounted and the session is finished.
    pub fn input_exhausted(&mut self) -> (r: AflRet)
        requires
            old(self).wf(),
        ensures
            final(self).wf(),
            final(self).exits() == old(self).exits(),
            old(self)@.phase == Phase::Running ==> r == AflRet::Finished && final(self)@ == (
            FuzzState { phase: Phase::Done, in_iteration: false, ..old(self)@ }),
            old(self)@.phase != Phase::Running ==> r == AflRet::Error && final(self)@ == old(self)@,
    {
        if self.st.phase != Phase::Running {
            return AflRet::Error;
        }
        self.st.phase = Phase::Done;
        self.st.in_iteration = false;
        AflRet::Finished
    }
}

} // verus!
