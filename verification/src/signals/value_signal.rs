//! Value signals: gathering the values emitted during each instant.

use vstd::prelude::*;

use crate::runtime::Runtime;
use crate::signals::runtime::SignalRuntimeRef;
use crate::signals::signals::Signal;
use crate::values::GatherFun;
use crate::values::Val;

verus! {

/// A signal holding a value: the values emitted during one instant are
/// folded into an accumulator by the signal's gather function, and the
/// gathered value is delivered to `await_signal` observers in the following
/// instant.
#[derive(Clone, Copy)]
pub struct ValueSignal {
    pub runtime_ref: SignalRuntimeRef,
}

impl ValueSignal {
    /// Creates a fresh value signal with the given gather neutral and gather
    /// function.
    pub fn new_with_gather_function(
        runtime: &mut Runtime,
        default_value: Val,
        gather_value_function: GatherFun,
    ) -> (r: Self)
        ensures
            final(runtime)@ == crate::semantics::new_signal_spec(
                old(runtime)@,
                default_value,
                gather_value_function,
            ),
            r.runtime_ref.signal_index == old(runtime)@.signals.len(),
    {
        ValueSignal {
            runtime_ref: SignalRuntimeRef::new(runtime, default_value, gather_value_function),
        }
    }

    /// Creates a fresh value signal which collects the values emitted during
    /// an instant onto a list, most recent first, starting from the empty
    /// list.
    pub fn new(runtime: &mut Runtime) -> (r: Self)
        ensures
            final(runtime)@ == crate::semantics::new_signal_spec(
                old(runtime)@,
                Val::Nil,
                GatherFun::Collect,
            ),
            r.runtime_ref.signal_index == old(runtime)@.signals.len(),
    {
        ValueSignal {
            runtime_ref: SignalRuntimeRef::new(runtime, Val::Nil, GatherFun::Collect),
        }
    }
}

impl Signal for ValueSignal {
    open spec fn sig(&self) -> SignalRuntimeRef {
        self.runtime_ref
    }

    fn runtime(&self) -> (r: SignalRuntimeRef) {
        self.runtime_ref
    }
}

} // verus!
