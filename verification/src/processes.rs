//! Reactive processes.
//!
//! A process is a description of a computation that, once invoked by the
//! scheduler, arranges for a continuation to receive its value, possibly
//! several instants later.  Processes are plain data, so a process can be
//! cloned and re-run: the loop combinator `while_loop` re-interprets a copy
//! of its body on every iteration.

use vstd::prelude::*;

use crate::signals::signals::Await;
use crate::signals::signals::AwaitImmediate;
use crate::signals::signals::Emit;
use crate::signals::signals::Present;
use crate::values::Fun;
use crate::values::Val;
use crate::values::fun_size;
use crate::values::val_size;

verus! {

/// Tells a `while_loop` whether to run its body again (`Continue`) or to
/// stop and deliver the carried value (`Exit`).
#[derive(PartialEq, Debug)]
pub enum LoopStatus {
    Continue,
    Exit(Box<Val>),
}

/// A process delivering a single value immediately.
#[derive(PartialEq, Debug)]
pub struct ValueProcess {
    pub value: Val,
}

/// A process running its inner process, then waiting one instant before
/// delivering the inner value.
#[derive(PartialEq, Debug)]
pub struct PauseProcess {
    pub process: Box<Process>,
}

/// A process applying a function to its inner process's value.
#[derive(PartialEq, Debug)]
pub struct MapProcess {
    pub process: Box<Process>,
    pub function: Fun,
}

/// A process whose inner process produces a process value, which is then run
/// in turn.
#[derive(PartialEq, Debug)]
pub struct FlattenProcess {
    pub process: Box<Process>,
}

/// A process running two sub-processes and delivering the pair of their
/// values once both have finished.
#[derive(PartialEq, Debug)]
pub struct JoinProcess {
    pub process_1: Box<Process>,
    pub process_2: Box<Process>,
}

/// A process re-running its body, whose value must be a `LoopStatus`, until
/// the body exits.
#[derive(PartialEq, Debug)]
pub struct WhileProcess {
    pub process: Box<Process>,
}

/// A reactive process.
#[derive(PartialEq, Debug)]
pub enum Process {
    Value(ValueProcess),
    Pause(PauseProcess),
    Mapped(MapProcess),
    Flatten(FlattenProcess),
    Join(JoinProcess),
    While(WhileProcess),
    Emit(Emit),
    Await(Await),
    AwaitImmediate(AwaitImmediate),
    Present(Present),
}

/// Structural size of a process; every node weighs at least two, so that
/// unfolding one combinator strictly shrinks a dispatch's measure.
pub open spec fn proc_size(p: Process) -> nat
    decreases p,
{
    match p {
        Process::Value(vp) => 2 + val_size(vp.value),
        Process::Pause(pp) => 2 + proc_size(*pp.process),
        Process::Mapped(mp) => 2 + proc_size(*mp.process) + fun_size(mp.function),
        Process::Flatten(fp) => 2 + proc_size(*fp.process),
        Process::Join(jp) => 2 + proc_size(*jp.process_1) + proc_size(*jp.process_2),
        Process::While(wp) => 2 + proc_size(*wp.process),
        Process::Emit(e) => 2 + val_size(e.value),
        Process::Await(_) => 2,
        Process::AwaitImmediate(_) => 2,
        Process::Present(pr) => 2 + proc_size(*pr.process_if) + proc_size(*pr.process_else),
    }
}

/// Copies a process, so that a loop can re-run its body.
pub fn clone_process(p: &Process) -> (r: Process)
    ensures
        r == *p,
    decreases proc_size(*p),
{
    match p {
        Process::Value(vp) => Process::Value(
            ValueProcess { value: crate::values::clone_val(&vp.value) },
        ),
        Process::Pause(pp) => Process::Pause(
            PauseProcess { process: Box::new(clone_process(&*pp.process)) },
        ),
        Process::Mapped(mp) => Process::Mapped(
            MapProcess {
                process: Box::new(clone_process(&*mp.process)),
                function: crate::values::clone_fun(&mp.function),
            },
        ),
        Process::Flatten(fp) => Process::Flatten(
            FlattenProcess { process: Box::new(clone_process(&*fp.process)) },
        ),
        Process::Join(jp) => Process::Join(
            JoinProcess {
                process_1: Box::new(clone_process(&*jp.process_1)),
                process_2: Box::new(clone_process(&*jp.process_2)),
            },
        ),
        Process::While(wp) => Process::While(
            WhileProcess { process: Box::new(clone_process(&*wp.process)) },
        ),
        Process::Emit(e) => Process::Emit(
            Emit { signal: e.signal, value: crate::values::clone_val(&e.value) },
        ),
        Process::Await(a) => Process::Await(Await { signal: a.signal }),
        Process::AwaitImmediate(a) => Process::AwaitImmediate(
            AwaitImmediate { signal: a.signal },
        ),
        Process::Present(pr) => Process::Present(
            Present {
                signal: pr.signal,
                process_if: Box::new(clone_process(&*pr.process_if)),
                process_else: Box::new(clone_process(&*pr.process_else)),
            },
        ),
    }
}

/// Executes the given process in a freshly created `Runtime`, within the
/// given budget of machine steps, and returns the value it produced —
/// `None` when the process deadlocked (it awaits a signal nothing will
/// emit), diverged past the budget, or the machine halted on a contract
/// violation.
pub fn execute_process(process: Process, fuel: u64) -> (r: Option<Val>)
    ensures
        r == crate::semantics::execute_result(
            crate::semantics::seed(crate::semantics::init_state(), process),
            fuel as nat,
        ).result,
{
    let mut runtime = crate::runtime::Runtime::new();
    runtime.run_process(process, fuel)
}

/// Returns a process which immediately delivers the given value.
pub fn value(v: Val) -> (r: Process)
    ensures
        r == Process::Value(ValueProcess { value: v }),
{
    Process::Value(ValueProcess { value: v })
}

impl Process {
    /// Returns a process which waits one instant after this process finishes
    /// before delivering its value.
    pub fn pause(self) -> (r: Process)
        ensures
            r == Process::Pause(PauseProcess { process: Box::new(self) }),
    {
        Process::Pause(PauseProcess { process: Box::new(self) })
    }

    /// Returns a process which applies the given function to this process's
    /// value before delivering it.
    pub fn map(self, function: Fun) -> (r: Process)
        ensures
            r == Process::Mapped(MapProcess { process: Box::new(self), function }),
    {
        Process::Mapped(MapProcess { process: Box::new(self), function })
    }

    /// Returns a process which runs the process this process's value
    /// describes.
    pub fn flatten(self) -> (r: Process)
        ensures
            r == Process::Flatten(FlattenProcess { process: Box::new(self) }),
    {
        Process::Flatten(FlattenProcess { process: Box::new(self) })
    }

    /// Successively applies `map` and `flatten`.
    pub fn and_then(self, function: Fun) -> (r: Process)
        ensures
            r == Process::Flatten(
                FlattenProcess {
                    process: Box::new(
                        Process::Mapped(MapProcess { process: Box::new(self), function }),
                    ),
                },
            ),
    {
        self.map(function).flatten()
    }

    /// Returns a process which runs this process and the given one, and
    /// delivers the pair of both values once both have finished.
    pub fn join(self, process: Process) -> (r: Process)
        ensures
            r == Process::Join(
                JoinProcess { process_1: Box::new(self), process_2: Box::new(process) },
            ),
    {
        Process::Join(JoinProcess { process_1: Box::new(self), process_2: Box::new(process) })
    }

    /// Returns a process which re-runs this process, whose value must be a
    /// `LoopStatus`, until it produces `Exit`, and then delivers the carried
    /// value.
    pub fn while_loop(self) -> (r: Process)
        ensures
            r == Process::While(WhileProcess { process: Box::new(self) }),
    {
        Process::While(WhileProcess { process: Box::new(self) })
    }
}

} // verus!
