//! Signal processes: emitting, awaiting, and branching on presence.

use vstd::prelude::*;

use crate::processes::Process;
use crate::signals::runtime::SignalRuntimeRef;
use crate::values::Val;

verus! {

/// A process which waits for an instant in which the signal is present and
/// delivers, one instant later, the value the signal gathered there.
#[derive(PartialEq, Debug)]
pub struct Await {
    pub signal: SignalRuntimeRef,
}

/// A process which waits for the next instant in which the signal is
/// present, the current one included, and delivers the unit value within
/// that same instant.
#[derive(PartialEq, Debug)]
pub struct AwaitImmediate {
    pub signal: SignalRuntimeRef,
}

/// A process which emits the signal with the given value and delivers the
/// unit value immediately.
#[derive(PartialEq, Debug)]
pub struct Emit {
    pub signal: SignalRuntimeRef,
    pub value: Val,
}

/// A process which runs `process_if` within the current instant if the
/// signal becomes present in it, and otherwise runs `process_else` in the
/// next instant.
#[derive(PartialEq, Debug)]
pub struct Present {
    pub signal: SignalRuntimeRef,
    pub process_if: Box<Process>,
    pub process_else: Box<Process>,
}

/// Anything holding a signal: builds the signal processes.
pub trait Signal {
    /// The handle of the underlying signal state.
    spec fn sig(&self) -> SignalRuntimeRef;

    /// Returns a reference to the signal's runtime.
    fn runtime(&self) -> (r: SignalRuntimeRef)
        ensures
            r == self.sig(),
    ;

    /// Returns a process which emits this signal carrying the given value.
    fn emit_value(&self, value: Val) -> (r: Process)
        ensures
            r == Process::Emit(Emit { signal: self.sig(), value }),
    {
        let signal = self.runtime();
        Process::Emit(Emit { signal, value })
    }

    /// Returns a process which emits this signal carrying the unit value.
    fn emit(&self) -> (r: Process)
        ensures
            r == Process::Emit(Emit { signal: self.sig(), value: Val::Unit }),
    {
        self.emit_value(Val::Unit)
    }

    /// Returns a process which waits for an instant in which this signal is
    /// present and delivers the gathered value one instant later.
    fn await_signal(&self) -> (r: Process)
        ensures
            r == Process::Await(Await { signal: self.sig() }),
    {
        let signal = self.runtime();
        Process::Await(Await { signal })
    }

    /// Returns a process which waits for the next emission of this signal,
    /// the current instant included.
    fn await_immediate(&self) -> (r: Process)
        ensures
            r == Process::AwaitImmediate(AwaitImmediate { signal: self.sig() }),
    {
        let signal = self.runtime();
        Process::AwaitImmediate(AwaitImmediate { signal })
    }

    /// Returns a process which runs `process_if` this instant if this signal
    /// becomes present in it, and `process_else` next instant otherwise.
    fn present(&self, process_if: Process, process_else: Process) -> (r: Process)
        ensures
            r == Process::Present(
                Present {
                    signal: self.sig(),
                    process_if: Box::new(process_if),
                    process_else: Box::new(process_else),
                },
            ),
    {
        let signal = self.runtime();
        Process::Present(
            Present {
                signal,
                process_if: Box::new(process_if),
                process_else: Box::new(process_else),
            },
        )
    }
}

} // verus!
