//! Continuations: the suspended tails of computations.
//!
//! A continuation awaits one value.  The scheduler holds continuations in
//! its pools and in signal queues, and dispatches each at most once.  Beside
//! the user-facing shapes (`Done`, `Store`, `Map`, `Pause`, and the flatten
//! and loop controllers) the enum carries the forms the runtime itself
//! registers: join and presence branch controllers, the deliverer of a
//! signal's previous value, the absent-queue flusher, and the end-of-instant
//! reset of a signal.

use vstd::prelude::*;

use crate::processes::Process;
use crate::processes::proc_size;
use crate::values::Fun;
use crate::values::fun_size;

verus! {

/// A continuation applying a function to the value it receives before
/// passing the result on.
pub struct Mapped {
    pub function: Fun,
    pub next: Box<Continuation>,
}

/// A continuation postponing the inner continuation to the next instant.
pub struct Pause {
    pub next: Box<Continuation>,
}

/// A reactive continuation awaiting one value.
pub enum Continuation {
    /// Discards the value.
    Done,
    /// Stores the value as the scheduler's result.
    Store,
    /// Applies a function first.
    Mapped(Mapped),
    /// Re-enqueues the inner continuation, with the value, for the next
    /// instant.
    Pause(Pause),
    /// Expects a process value and runs it with the inner continuation.
    Flatten(Box<Continuation>),
    /// Completes the left half of the numbered join cell.
    JoinLeft(usize),
    /// Completes the right half of the numbered join cell.
    JoinRight(usize),
    /// Expects a `LoopStatus`: re-runs a copy of the body on `Continue`,
    /// passes the carried value on after `Exit`.
    Loop(Box<Process>, Box<Continuation>),
    /// Passes the numbered signal's previous value on to the inner
    /// continuation.
    DeliverPrevious(usize, Box<Continuation>),
    /// Runs the present branch of the numbered presence cell.
    PresentIf(usize),
    /// Runs the absent branch of the numbered presence cell.
    PresentElse(usize),
    /// At the end of the registration instant, releases the numbered
    /// signal's absent queue into the next instant, unless an emission
    /// cancelled it.
    FlushAbsent(usize),
    /// The numbered signal's end-of-instant reset.
    ResetSignal(usize),
}

/// Structural size of a continuation; together with `proc_size` and
/// `val_size` this bounds one scheduler dispatch.
pub open spec fn cont_size(k: Continuation) -> nat
    decreases k,
{
    match k {
        Continuation::Done => 1,
        Continuation::Store => 1,
        Continuation::Mapped(m) => 1 + fun_size(m.function) + cont_size(*m.next),
        Continuation::Pause(p) => 1 + cont_size(*p.next),
        Continuation::Flatten(next) => 1 + cont_size(*next),
        Continuation::JoinLeft(_) => 1,
        Continuation::JoinRight(_) => 1,
        Continuation::Loop(body, next) => 1 + proc_size(*body) + cont_size(*next),
        Continuation::DeliverPrevious(_, next) => 1 + cont_size(*next),
        Continuation::PresentIf(_) => 1,
        Continuation::PresentElse(_) => 1,
        Continuation::FlushAbsent(_) => 1,
        Continuation::ResetSignal(_) => 1,
    }
}

impl Continuation {
    /// Returns a continuation that applies the given function to the value
    /// it receives before calling this one.
    pub fn map(self, function: Fun) -> (r: Continuation)
        ensures
            r == Continuation::Mapped(Mapped { function, next: Box::new(self) }),
    {
        Continuation::Mapped(Mapped { function, next: Box::new(self) })
    }

    /// Returns a continuation that waits for the next instant before calling
    /// this one with the value it received.
    pub fn pause(self) -> (r: Continuation)
        ensures
            r == Continuation::Pause(Pause { next: Box::new(self) }),
    {
        Continuation::Pause(Pause { next: Box::new(self) })
    }
}

} // verus!
