//! Pure signals: presence and absence only.

use vstd::prelude::*;

use crate::runtime::Runtime;
use crate::signals::runtime::SignalRuntimeRef;
use crate::signals::signals::Signal;
use crate::values::GatherFun;
use crate::values::Val;

verus! {

/// A signal carrying no value: only its presence or absence in each instant
/// matters.  Its gathered value is always the unit value.
#[derive(Clone, Copy)]
pub struct PureSignal {
    pub runtime_ref: SignalRuntimeRef,
}

impl PureSignal {
    /// Creates a fresh pure signal in the given runtime.
    pub fn new(runtime: &mut Runtime) -> (r: Self)
        ensures
            final(runtime)@ == crate::semantics::new_signal_spec(
                old(runtime)@,
                Val::Unit,
                GatherFun::Replace,
            ),
            r.runtime_ref.signal_index == old(runtime)@.signals.len(),
    {
        PureSignal {
            runtime_ref: SignalRuntimeRef::new(runtime, Val::Unit, GatherFun::Replace),
        }
    }
}

impl Signal for PureSignal {
    open spec fn sig(&self) -> SignalRuntimeRef {
        self.runtime_ref
    }

    fn runtime(&self) -> (r: SignalRuntimeRef) {
        self.runtime_ref
    }
}

} // verus!
