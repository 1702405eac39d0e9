//! Per-signal state and the handle through which programs reach it.

use vstd::prelude::*;

use crate::continuations::Continuation;
use crate::values::GatherFun;
use crate::values::Val;

verus! {

/// The state of one signal.
///
/// All signal state lives in the scheduler's signal table; this struct is
/// one entry of that table.  The three queues hold continuations waiting on
/// the signal: to run this instant if it becomes present, to receive next
/// instant the value gathered in a present instant, and to run next instant
/// if the whole current instant passes without an emission.
pub struct SignalRuntime {
    /// Whether the signal is present in the current instant.
    pub is_currently_emitted: bool,
    /// Continuations to run within the current instant when the signal
    /// becomes present.
    pub call_on_present: Vec<Continuation>,
    /// Continuations to run in the next instant, with the gathered value,
    /// if the signal is present in the current one.
    pub call_later_on_present: Vec<Continuation>,
    /// Continuations to run in the next instant if the signal stays absent
    /// through the whole current one.
    pub call_later_on_absent: Vec<Continuation>,
    /// Whether a flusher for `call_later_on_absent` is scheduled for the
    /// end of the current instant; cleared by an emission and by the
    /// flusher itself.
    pub call_later_on_absent_registered: bool,
    /// The gather neutral, restored into the accumulator at each instant's
    /// end.
    pub default_value: Val,
    /// The accumulator folding the values emitted during the current
    /// instant.
    pub current_value: Val,
    /// The value gathered during the most recently completed instant in
    /// which the signal was updated.
    pub previous_value: Option<Val>,
    /// How an emitted value is folded into the accumulator.
    pub gather_value_function: GatherFun,
}

impl View for SignalRuntime {
    type V = crate::semantics::SignalModel;

    open spec fn view(&self) -> crate::semantics::SignalModel {
        crate::semantics::SignalModel {
            emitted: self.is_currently_emitted,
            on_present: self.call_on_present@,
            later_on_present: self.call_later_on_present@,
            later_on_absent: self.call_later_on_absent@,
            absent_registered: self.call_later_on_absent_registered,
            default_value: self.default_value,
            current_value: self.current_value,
            previous_value: self.previous_value,
            gather: self.gather_value_function,
        }
    }
}

/// A handle to one signal's state: its index in the scheduler's signal
/// table.
///
/// Copies of the handle denote the same signal.  A handle is only meaningful
/// for the scheduler that created it.
#[derive(PartialEq, Debug)]
pub struct SignalRuntimeRef {
    pub signal_index: usize,
}

impl SignalRuntime {
    /// Creates the state of a fresh signal with the given gather neutral and
    /// gather function.
    pub fn new(default_value: Val, gather_value_function: GatherFun) -> (r: Self)
        ensures
            r@ == crate::semantics::fresh_signal(default_value, gather_value_function),
    {
        let current_value = crate::values::clone_val(&default_value);
        let r = SignalRuntime {
            is_currently_emitted: false,
            call_on_present: Vec::new(),
            call_later_on_present: Vec::new(),
            call_later_on_absent: Vec::new(),
            call_later_on_absent_registered: false,
            default_value,
            current_value,
            previous_value: None,
            gather_value_function,
        };
        proof {
            assert(r@ =~= crate::semantics::fresh_signal(
                r.default_value,
                r.gather_value_function,
            ));
        }
        r
    }
}

impl Clone for SignalRuntimeRef {
    fn clone(&self) -> (r: Self)
        ensures
            r == *self,
    {
        SignalRuntimeRef { signal_index: self.signal_index }
    }
}

impl Copy for SignalRuntimeRef {

}

impl SignalRuntimeRef {
    /// Creates a fresh signal in the given runtime's signal table and
    /// returns its handle.
    pub fn new(
        runtime: &mut crate::runtime::Runtime,
        default_value: Val,
        gather_value_function: GatherFun,
    ) -> (r: Self)
        ensures
            final(runtime)@ == crate::semantics::new_signal_spec(
                old(runtime)@,
                default_value,
                gather_value_function,
            ),
            r.signal_index == old(runtime)@.signals.len(),
    {
        let signal_index = runtime.signals.len();
        let sig = SignalRuntime::new(default_value, gather_value_function);
        runtime.signals.push(sig);
        proof {
            assert(final(runtime)@ =~= crate::semantics::new_signal_spec(
                old(runtime)@,
                default_value,
                gather_value_function,
            ));
        }
        SignalRuntimeRef { signal_index }
    }

    /// Emits the signal during the current instant, gathering the given
    /// value; idempotent within an instant.
    pub fn emit(self, runtime: &mut crate::runtime::Runtime, value: Val)
        ensures
            final(runtime)@ == crate::semantics::emit_spec(
                old(runtime)@,
                self.signal_index,
                value,
            ),
    {
        runtime.signal_emit(self.signal_index, value);
    }

    /// Registers a continuation to run during the current instant if the
    /// signal is present during it.
    pub fn on_present(self, runtime: &mut crate::runtime::Runtime, c: Continuation)
        ensures
            final(runtime)@ == crate::semantics::on_present_spec(
                old(runtime)@,
                self.signal_index,
                c,
            ),
    {
        runtime.signal_on_present(self.signal_index, c);
    }

    /// Registers a continuation to run during the next instant if the signal
    /// is present during the current one; it will receive the value the
    /// signal gathered during the present instant.
    pub fn later_on_present(self, runtime: &mut crate::runtime::Runtime, c: Continuation)
        ensures
            final(runtime)@ == crate::semantics::later_on_present_spec(
                old(runtime)@,
                self.signal_index,
                c,
            ),
    {
        runtime.signal_later_on_present(self.signal_index, c);
    }

    /// Registers a continuation to run during the next instant if the signal
    /// stays absent through the whole current one.
    pub fn later_on_absent(self, runtime: &mut crate::runtime::Runtime, c: Continuation)
        ensures
            final(runtime)@ == crate::semantics::later_on_absent_spec(
                old(runtime)@,
                self.signal_index,
                c,
            ),
    {
        runtime.signal_later_on_absent(self.signal_index, c);
    }
}

} // verus!
