//! The scheduler: an environment for running reactive tasks.
//!
//! The runtime owns everything a program touches while it runs: the three
//! task pools (current instant, end of instant, next instant), the signal
//! table, the join and presence cells of the coordination combinators, the
//! shared cells programs count in, and the result slot.  Its fields are
//! public so that its view — the model state of `semantics` — is fully
//! transparent; every operation's contract is an equation against that
//! model.

use vstd::prelude::*;

use crate::continuations::Continuation;
use crate::processes::LoopStatus;
use crate::processes::Process;
use crate::semantics::MState;
use crate::semantics::init_state;
use crate::semantics::push_current;
use crate::semantics::push_end_of_instant;
use crate::semantics::push_next;
use crate::signals::runtime::SignalRuntime;
use crate::values::Val;

verus! {

/// One unit of scheduled work: a process to run with a continuation, or a
/// continuation to resume with a value.
pub enum Task {
    Call(Process, Continuation),
    Resume(Continuation, Val),
}

/// The meeting point of a `join`: the first sub-process to finish leaves its
/// value; the second takes both values and the continuation.  Every field is
/// consumed the moment the pair is delivered.
pub struct JoinCell {
    pub left: Option<Val>,
    pub right: Option<Val>,
    pub next: Option<Continuation>,
}

/// The meeting point of a `present`: the two branch processes and the
/// continuation they share.  Exactly one branch takes the cell.
pub struct PresentCell {
    pub next: Option<Continuation>,
    pub process_if: Option<Process>,
    pub process_else: Option<Process>,
}

/// Runtime for executing reactive tasks.
pub struct Runtime {
    /// Tasks to dispatch during the current instant.
    pub current_instant_tasks: Vec<Task>,
    /// Tasks to dispatch after the current pool drains, before the clock
    /// ticks.
    pub end_of_instant_tasks: Vec<Task>,
    /// Tasks that become the current pool at the next tick.
    pub next_instant_tasks: Vec<Task>,
    /// The state of every signal created against this runtime.
    pub signals: Vec<SignalRuntime>,
    /// The join cells allocated so far.
    pub joins: Vec<JoinCell>,
    /// The presence cells allocated so far.
    pub presents: Vec<PresentCell>,
    /// The shared cells programs read and write through `Fun`.
    pub cells: Vec<i64>,
    /// Where the driven process stores its value.
    pub result: Option<Val>,
    /// Whether the machine met a contract violation and halted.
    pub stuck: bool,
}

impl View for Runtime {
    type V = MState;

    open spec fn view(&self) -> MState {
        MState {
            current: self.current_instant_tasks@,
            end_of_instant: self.end_of_instant_tasks@,
            next: self.next_instant_tasks@,
            signals: self.signals@.map_values(|sig: SignalRuntime| sig@),
            joins: self.joins@,
            presents: self.presents@,
            cells: self.cells@,
            result: self.result,
            stuck: self.stuck,
        }
    }
}

impl Runtime {
    /// Creates a new `Runtime` with no work, no signals and no cells.
    pub fn new() -> (r: Self)
        ensures
            r@ == init_state(),
    {
        let r = Runtime {
            current_instant_tasks: Vec::new(),
            end_of_instant_tasks: Vec::new(),
            next_instant_tasks: Vec::new(),
            signals: Vec::new(),
            joins: Vec::new(),
            presents: Vec::new(),
            cells: Vec::new(),
            result: None,
            stuck: false,
        };
        proof {
            assert(r@ =~= init_state());
        }
        r
    }

    /// Schedules a task on the current instant.
    pub(crate) fn push_current_task(&mut self, t: Task)
        ensures
            final(self)@ == push_current(old(self)@, t),
    {
        self.current_instant_tasks.push(t);
        proof {
            assert(final(self)@ =~= push_current(old(self)@, t));
        }
    }

    /// Schedules a task on the next instant.
    pub(crate) fn push_next_task(&mut self, t: Task)
        ensures
            final(self)@ == push_next(old(self)@, t),
    {
        self.next_instant_tasks.push(t);
        proof {
            assert(final(self)@ =~= push_next(old(self)@, t));
        }
    }

    /// Schedules a task at the end of the current instant.
    pub(crate) fn push_end_of_instant_task(&mut self, t: Task)
        ensures
            final(self)@ == push_end_of_instant(old(self)@, t),
    {
        self.end_of_instant_tasks.push(t);
        proof {
            assert(final(self)@ =~= push_end_of_instant(old(self)@, t));
        }
    }

    /// Registers a continuation to run during the current instant; it will
    /// receive the unit value.
    pub fn on_current_instant(&mut self, c: Continuation)
        ensures
            final(self)@ == push_current(old(self)@, Task::Resume(c, Val::Unit)),
    {
        self.push_current_task(Task::Resume(c, Val::Unit));
    }

    /// Registers a continuation to run during the next instant; it will
    /// receive the unit value.
    pub fn on_next_instant(&mut self, c: Continuation)
        ensures
            final(self)@ == push_next(old(self)@, Task::Resume(c, Val::Unit)),
    {
        self.push_next_task(Task::Resume(c, Val::Unit));
    }

    /// Registers a continuation to run at the end of the current instant,
    /// after the current pool has drained; it will receive the unit value.
    pub fn on_end_of_instant(&mut self, c: Continuation)
        ensures
            final(self)@ == push_end_of_instant(old(self)@, Task::Resume(c, Val::Unit)),
    {
        self.push_end_of_instant_task(Task::Resume(c, Val::Unit));
    }

    /// Creates a shared cell holding `init` and returns its number.
    pub fn new_cell(&mut self, init: i64) -> (r: usize)
        ensures
            final(self)@ == (MState { cells: old(self)@.cells.push(init), ..old(self)@ }),
            r == old(self)@.cells.len(),
    {
        let r = self.cells.len();
        self.cells.push(init);
        proof {
            assert(final(self)@ =~= (MState {
                cells: old(self)@.cells.push(init),
                ..old(self)@
            }));
        }
        r
    }

    /// Halts the machine on a contract violation.
    pub(crate) fn halt_machine(&mut self)
        ensures
            final(self)@ == crate::semantics::halt(old(self)@),
    {
        self.stuck = true;
        proof {
            assert(final(self)@ =~= crate::semantics::halt(old(self)@));
        }
    }

    /// Registers `k` to run during the current instant once signal `i` is
    /// present: at once if the signal is already present, else on its
    /// presence queue.
    pub(crate) fn signal_on_present(&mut self, i: usize, k: Continuation)
        ensures
            final(self)@ == crate::semantics::on_present_spec(old(self)@, i, k),
    {
        if i >= self.signals.len() {
            self.halt_machine();
            return;
        }
        if self.signals[i].is_currently_emitted {
            self.push_current_task(Task::Resume(k, Val::Unit));
        } else {
            self.signals[i].call_on_present.push(k);
            proof {
                assert(final(self)@.signals =~= old(self)@.signals.update(
                    i as int,
                    final(self).signals@[i as int]@,
                ));
                assert(final(self)@ =~= crate::semantics::on_present_spec(old(self)@, i, k));
            }
        }
    }

    /// Registers `k` to receive, next instant, the value signal `i` gathers
    /// in a present instant: scheduled at once if the signal is already
    /// present, else queued.
    pub(crate) fn signal_later_on_present(&mut self, i: usize, k: Continuation)
        ensures
            final(self)@ == crate::semantics::later_on_present_spec(old(self)@, i, k),
    {
        if i >= self.signals.len() {
            self.halt_machine();
            return;
        }
        if self.signals[i].is_currently_emitted {
            self.push_next_task(
                Task::Resume(Continuation::DeliverPrevious(i, Box::new(k)), Val::Unit),
            );
        } else {
            self.signals[i].call_later_on_present.push(k);
            proof {
                assert(final(self)@.signals =~= old(self)@.signals.update(
                    i as int,
                    final(self).signals@[i as int]@,
                ));
                assert(final(self)@ =~= crate::semantics::later_on_present_spec(
                    old(self)@,
                    i,
                    k,
                ));
            }
        }
    }

    /// Registers `k` to run next instant if signal `i` stays absent through
    /// the current instant; dropped if the signal is already present.
    pub(crate) fn signal_later_on_absent(&mut self, i: usize, k: Continuation)
        ensures
            final(self)@ == crate::semantics::later_on_absent_spec(old(self)@, i, k),
    {
        if i >= self.signals.len() {
            self.halt_machine();
            return;
        }
        if self.signals[i].is_currently_emitted {
            return;
        }
        self.signals[i].call_later_on_absent.push(k);
        if !self.signals[i].call_later_on_absent_registered {
            self.signals[i].call_later_on_absent_registered = true;
            self.push_end_of_instant_task(
                Task::Resume(Continuation::FlushAbsent(i), Val::Unit),
            );
        }
        proof {
            assert(final(self)@.signals =~= old(self)@.signals.update(
                i as int,
                final(self).signals@[i as int]@,
            ));
            assert(final(self)@ =~= crate::semantics::later_on_absent_spec(old(self)@, i, k));
        }
    }

    /// Delivers signal `i`'s previous value to `k`, scheduling it on the
    /// current instant.
    pub(crate) fn deliver_previous(&mut self, i: usize, k: Continuation)
        ensures
            final(self)@ == crate::semantics::deliver_previous_spec(old(self)@, i, k),
    {
        if i >= self.signals.len() {
            self.halt_machine();
            return;
        }
        let pv = match &self.signals[i].previous_value {
            Some(pv) => Some(crate::values::clone_val(pv)),
            None => None,
        };
        match pv {
            Some(pv) => {
                self.push_current_task(Task::Resume(k, pv));
            },
            None => {
                self.halt_machine();
            },
        }
    }

    /// The end-of-instant reset of signal `i`.
    pub(crate) fn signal_reset(&mut self, i: usize)
        ensures
            final(self)@ == crate::semantics::reset_signal_spec(old(self)@, i),
    {
        if i >= self.signals.len() {
            self.halt_machine();
            return;
        }
        let mut gathered = crate::values::clone_val(&self.signals[i].default_value);
        core::mem::swap(&mut gathered, &mut self.signals[i].current_value);
        self.signals[i].previous_value = Some(gathered);
        self.signals[i].is_currently_emitted = false;
        self.signals[i].call_on_present.clear();
        self.signals[i].call_later_on_present.clear();
        proof {
            assert(final(self)@.signals =~= old(self)@.signals.update(
                i as int,
                final(self).signals@[i as int]@,
            ));
            assert(final(self)@ =~= crate::semantics::reset_signal_spec(old(self)@, i));
        }
    }

    /// The absent flusher of signal `i`, run at the end of its registration
    /// instant: while still registered — no emission cancelled it — it
    /// releases the absent queue into the next instant and clears the
    /// guard.
    pub(crate) fn signal_flush_absent(&mut self, i: usize)
        ensures
            final(self)@ == crate::semantics::flush_absent_spec(old(self)@, i),
    {
        if i >= self.signals.len() {
            self.halt_machine();
            return;
        }
        if !self.signals[i].call_later_on_absent_registered {
            return;
        }
        let mut queue: Vec<Continuation> = Vec::new();
        core::mem::swap(&mut queue, &mut self.signals[i].call_later_on_absent);
        self.signals[i].call_later_on_absent_registered = false;
        let ghost mid = *self;
        let ghost queue0 = queue@;
        let ghost j0: int = 0;
        let ghost mut j: int = j0;
        while queue.len() > 0
            invariant
                0 <= j <= queue0.len(),
                queue@ == queue0.skip(j),
                self.next_instant_tasks@ == mid.next_instant_tasks@ + queue0.take(j)
                    .map_values(|k: Continuation| Task::Resume(k, Val::Unit)),
                self.current_instant_tasks@ == mid.current_instant_tasks@,
                self.end_of_instant_tasks@ == mid.end_of_instant_tasks@,
                self.signals@ == mid.signals@,
                self.joins@ == mid.joins@,
                self.presents@ == mid.presents@,
                self.cells@ == mid.cells@,
                self.result == mid.result,
                self.stuck == mid.stuck,
            decreases queue@.len(),
        {
            let k = queue.remove(0);
            self.next_instant_tasks.push(Task::Resume(k, Val::Unit));
            proof {
                assert(queue@ =~= queue0.skip(j + 1));
                assert(self.next_instant_tasks@ =~= mid.next_instant_tasks@ + queue0.take(
                    j + 1,
                ).map_values(|k: Continuation| Task::Resume(k, Val::Unit)));
                j = j + 1;
            }
        }
        proof {
            assert(queue0.take(j) =~= queue0);
            assert(final(self)@.signals =~= old(self)@.signals.update(
                i as int,
                final(self).signals@[i as int]@,
            ));
            assert(final(self)@ =~= crate::semantics::flush_absent_spec(old(self)@, i));
        }
    }

    /// Emits signal `i` carrying `e`; idempotent within an instant.
    pub(crate) fn signal_emit(&mut self, i: usize, e: Val)
        ensures
            final(self)@ == crate::semantics::emit_spec(old(self)@, i, e),
    {
        if i >= self.signals.len() {
            self.halt_machine();
            return;
        }
        if self.signals[i].is_currently_emitted {
            return;
        }
        let gather_function = self.signals[i].gather_value_function;
        let gathered = crate::values::gather(gather_function, e, &self.signals[i].current_value);
        match gathered {
            None => {
                self.halt_machine();
            },
            Some(gv) => {
                self.signals[i].is_currently_emitted = true;
                self.signals[i].current_value = gv;
                self.signals[i].call_later_on_absent.clear();
                self.signals[i].call_later_on_absent_registered = false;
                let mut ready: Vec<Continuation> = Vec::new();
                core::mem::swap(&mut ready, &mut self.signals[i].call_on_present);
                let mut waiting: Vec<Continuation> = Vec::new();
                core::mem::swap(&mut waiting, &mut self.signals[i].call_later_on_present);
                self.end_of_instant_tasks.push(
                    Task::Resume(Continuation::ResetSignal(i), Val::Unit),
                );
                let ghost mid = *self;
                let ghost ready0 = ready@;
                let ghost mut j: int = 0;
                while ready.len() > 0
                    invariant
                        0 <= j <= ready0.len(),
                        ready@ == ready0.skip(j),
                        self.current_instant_tasks@ == mid.current_instant_tasks@ + ready0
                            .take(j)
                            .map_values(|k: Continuation| Task::Resume(k, Val::Unit)),
                        self.end_of_instant_tasks@ == mid.end_of_instant_tasks@,
                        self.next_instant_tasks@ == mid.next_instant_tasks@,
                        self.signals@ == mid.signals@,
                        self.joins@ == mid.joins@,
                        self.presents@ == mid.presents@,
                        self.cells@ == mid.cells@,
                        self.result == mid.result,
                        self.stuck == mid.stuck,
                    decreases ready@.len(),
                {
                    let k = ready.remove(0);
                    self.current_instant_tasks.push(Task::Resume(k, Val::Unit));
                    proof {
                        assert(ready@ =~= ready0.skip(j + 1));
                        assert(self.current_instant_tasks@ =~= mid.current_instant_tasks@
                            + ready0.take(j + 1).map_values(
                            |k: Continuation| Task::Resume(k, Val::Unit),
                        ));
                        j = j + 1;
                    }
                }
                proof {
                    assert(ready0.take(j) =~= ready0);
                }
                let ghost mid2 = *self;
                let ghost waiting0 = waiting@;
                let ghost mut l: int = 0;
                while waiting.len() > 0
                    invariant
                        0 <= l <= waiting0.len(),
                        waiting@ == waiting0.skip(l),
                        self.next_instant_tasks@ == mid2.next_instant_tasks@ + waiting0.take(
                            l,
                        ).map_values(
                            |k: Continuation|
                                Task::Resume(
                                    Continuation::DeliverPrevious(i, Box::new(k)),
                                    Val::Unit,
                                ),
                        ),
                        self.current_instant_tasks@ == mid2.current_instant_tasks@,
                        self.end_of_instant_tasks@ == mid2.end_of_instant_tasks@,
                        self.signals@ == mid2.signals@,
                        self.joins@ == mid2.joins@,
                        self.presents@ == mid2.presents@,
                        self.cells@ == mid2.cells@,
                        self.result == mid2.result,
                        self.stuck == mid2.stuck,
                    decreases waiting@.len(),
                {
                    let k = waiting.remove(0);
                    self.next_instant_tasks.push(
                        Task::Resume(Continuation::DeliverPrevious(i, Box::new(k)), Val::Unit),
                    );
                    proof {
                        assert(waiting@ =~= waiting0.skip(l + 1));
                        assert(self.next_instant_tasks@ =~= mid2.next_instant_tasks@ + waiting0
                            .take(l + 1)
                            .map_values(
                            |k: Continuation|
                                Task::Resume(
                                    Continuation::DeliverPrevious(i, Box::new(k)),
                                    Val::Unit,
                                ),
                        ));
                        l = l + 1;
                    }
                }
                proof {
                    assert(waiting0.take(l) =~= waiting0);
                    assert(final(self)@.signals =~= old(self)@.signals.update(
                        i as int,
                        final(self).signals@[i as int]@,
                    ));
                    assert(final(self)@ =~= crate::semantics::emit_spec(old(self)@, i, e));
                }
            },
        }
    }

    /// Completes one half of join cell `j` with `v` (`left` says which
    /// half): the first completion stores its value, the second consumes the
    /// cell and schedules the stored continuation with the pair.
    pub(crate) fn join_complete(&mut self, j: usize, left: bool, v: Val)
        ensures
            final(self)@ == crate::semantics::join_complete_spec(old(self)@, j, left, v),
    {
        if j >= self.joins.len() {
            self.halt_machine();
            return;
        }
        let mut cell = JoinCell { left: None, right: None, next: None };
        self.joins.set_and_swap(j, &mut cell);
        let other_finished = if left {
            cell.right.is_some()
        } else {
            cell.left.is_some()
        };
        if other_finished {
            if cell.next.is_some() {
                let k = cell.next.unwrap();
                let pair = if left {
                    Val::Pair(Box::new(v), Box::new(cell.right.unwrap()))
                } else {
                    Val::Pair(Box::new(cell.left.unwrap()), Box::new(v))
                };
                self.current_instant_tasks.push(Task::Resume(k, pair));
                proof {
                    assert(final(self)@.joins =~= old(self)@.joins.update(
                        j as int,
                        JoinCell { left: None, right: None, next: None },
                    ));
                    assert(final(self)@ =~= crate::semantics::join_complete_spec(
                        old(self)@,
                        j,
                        left,
                        v,
                    ));
                }
            } else {
                self.joins.set(j, cell);
                self.halt_machine();
                proof {
                    assert(final(self)@.joins =~= old(self)@.joins);
                    assert(final(self)@ =~= crate::semantics::join_complete_spec(
                        old(self)@,
                        j,
                        left,
                        v,
                    ));
                }
            }
        } else {
            if left {
                cell.left = Some(v);
            } else {
                cell.right = Some(v);
            }
            self.joins.set(j, cell);
            proof {
                assert(final(self)@.joins =~= old(self)@.joins.update(
                    j as int,
                    final(self).joins@[j as int],
                ));
                assert(final(self)@ =~= crate::semantics::join_complete_spec(
                    old(self)@,
                    j,
                    left,
                    v,
                ));
            }
        }
    }

    /// Fires one branch of presence cell `c` (`on_present` says which): the
    /// branch process and the shared continuation are taken from the cell
    /// and scheduled.
    pub(crate) fn present_branch(&mut self, c: usize, on_present: bool)
        ensures
            final(self)@ == crate::semantics::present_branch_spec(old(self)@, c, on_present),
    {
        if c >= self.presents.len() {
            self.halt_machine();
            return;
        }
        let mut cell = PresentCell { next: None, process_if: None, process_else: None };
        self.presents.set_and_swap(c, &mut cell);
        let branch_there = if on_present {
            cell.process_if.is_some()
        } else {
            cell.process_else.is_some()
        };
        if cell.next.is_some() && branch_there {
            let k = cell.next.unwrap();
            let p = if on_present {
                cell.process_if.unwrap()
            } else {
                cell.process_else.unwrap()
            };
            self.current_instant_tasks.push(Task::Call(p, k));
            proof {
                assert(final(self)@.presents =~= old(self)@.presents.update(
                    c as int,
                    PresentCell { next: None, process_if: None, process_else: None },
                ));
                assert(final(self)@ =~= crate::semantics::present_branch_spec(
                    old(self)@,
                    c,
                    on_present,
                ));
            }
        } else {
            self.presents.set(c, cell);
            self.halt_machine();
            proof {
                assert(final(self)@.presents =~= old(self)@.presents);
                assert(final(self)@ =~= crate::semantics::present_branch_spec(
                    old(self)@,
                    c,
                    on_present,
                ));
            }
        }
    }

    /// Starts a `present` process on signal `i`: stores both branches and
    /// the continuation in a fresh presence cell and registers one branch on
    /// presence, the other on absence.
    pub(crate) fn present_register(
        &mut self,
        i: usize,
        process_if: Process,
        process_else: Process,
        k: Continuation,
    )
        ensures
            final(self)@ == crate::semantics::present_spec(
                old(self)@,
                i,
                process_if,
                process_else,
                k,
            ),
    {
        if i >= self.signals.len() {
            self.halt_machine();
            return;
        }
        let c = self.presents.len();
        self.presents.push(
            PresentCell {
                next: Some(k),
                process_if: Some(process_if),
                process_else: Some(process_else),
            },
        );
        self.signal_on_present(i, Continuation::PresentIf(c));
        self.signal_later_on_absent(i, Continuation::PresentElse(c));
    }

    /// Dispatches one task: combinators unfold at once; work whose
    /// continuation is stored in the machine is pushed back into the pools.
    pub(crate) fn run_task(&mut self, t: Task)
        ensures
            final(self)@ == crate::semantics::run_task(old(self)@, t),
        decreases crate::semantics::task_size(t),
    {
        if self.stuck {
            return;
        }
        match t {
            Task::Call(p, k) => match p {
                Process::Value(vp) => {
                    self.run_task(Task::Resume(k, vp.value));
                },
                Process::Pause(pp) => {
                    self.run_task(
                        Task::Call(
                            *pp.process,
                            Continuation::Pause(
                                crate::continuations::Pause { next: Box::new(k) },
                            ),
                        ),
                    );
                },
                Process::Mapped(mp) => {
                    self.run_task(
                        Task::Call(
                            *mp.process,
                            Continuation::Mapped(
                                crate::continuations::Mapped {
                                    function: mp.function,
                                    next: Box::new(k),
                                },
                            ),
                        ),
                    );
                },
                Process::Flatten(fp) => {
                    self.run_task(Task::Call(*fp.process, Continuation::Flatten(Box::new(k))));
                },
                Process::Join(jp) => {
                    let j = self.joins.len();
                    self.joins.push(JoinCell { left: None, right: None, next: Some(k) });
                    self.push_current_task(
                        Task::Call(*jp.process_2, Continuation::JoinRight(j)),
                    );
                    self.run_task(Task::Call(*jp.process_1, Continuation::JoinLeft(j)));
                },
                Process::While(wp) => {
                    let body = crate::processes::clone_process(&*wp.process);
                    self.push_current_task(
                        Task::Call(body, Continuation::Loop(wp.process, Box::new(k))),
                    );
                },
                Process::Emit(e) => {
                    self.signal_emit(e.signal.signal_index, e.value);
                    self.run_task(Task::Resume(k, Val::Unit));
                },
                Process::Await(a) => {
                    self.signal_later_on_present(a.signal.signal_index, k);
                },
                Process::AwaitImmediate(a) => {
                    self.signal_on_present(a.signal.signal_index, k);
                },
                Process::Present(pr) => {
                    self.present_register(
                        pr.signal.signal_index,
                        *pr.process_if,
                        *pr.process_else,
                        k,
                    );
                },
            },
            Task::Resume(k, v) => match k {
                Continuation::Done => {},
                Continuation::Store => {
                    self.result = Some(v);
                    proof {
                        assert(final(self)@ =~= crate::semantics::run_task(old(self)@, t));
                    }
                },
                Continuation::Mapped(m) => {
                    let ghost f0 = m.function;
                    let ghost v0 = v;
                    let ghost cells0 = self.cells@;
                    let applied = crate::values::apply(m.function, v, &mut self.cells);
                    proof {
                        crate::values::lemma_apply_size(f0, v0, cells0);
                    }
                    match applied {
                        Some(v2) => {
                            self.run_task(Task::Resume(*m.next, v2));
                        },
                        None => {
                            self.stuck = true;
                            proof {
                                assert(final(self)@ =~= crate::semantics::run_task(
                                    old(self)@,
                                    t,
                                ));
                            }
                        },
                    }
                },
                Continuation::Pause(pc) => {
                    self.push_next_task(Task::Resume(*pc.next, v));
                },
                Continuation::Flatten(next) => match v {
                    Val::Proc(p) => {
                        self.run_task(Task::Call(*p, *next));
                    },
                    _ => {
                        self.halt_machine();
                    },
                },
                Continuation::JoinLeft(j) => {
                    self.join_complete(j, true, v);
                },
                Continuation::JoinRight(j) => {
                    self.join_complete(j, false, v);
                },
                Continuation::Loop(body, next) => match v {
                    Val::Status(LoopStatus::Continue) => {
                        let copy = crate::processes::clone_process(&*body);
                        self.push_current_task(
                            Task::Call(copy, Continuation::Loop(body, next)),
                        );
                    },
                    Val::Status(LoopStatus::Exit(x)) => {
                        proof {
                            assert(crate::values::val_size(Val::Status(LoopStatus::Exit(x)))
                                == 2 + crate::values::val_size(*x)) by {
                                assert(crate::values::status_size(LoopStatus::Exit(x)) == 1
                                    + crate::values::val_size(*x));
                            }
                        }
                        self.run_task(Task::Resume(*next, *x));
                    },
                    _ => {
                        self.halt_machine();
                    },
                },
                Continuation::DeliverPrevious(i, next) => {
                    self.deliver_previous(i, *next);
                },
                Continuation::PresentIf(c) => {
                    self.present_branch(c, true);
                },
                Continuation::PresentElse(c) => {
                    self.present_branch(c, false);
                },
                Continuation::FlushAbsent(i) => {
                    self.signal_flush_absent(i);
                },
                Continuation::ResetSignal(i) => {
                    self.signal_reset(i);
                },
            },
        }
    }

    /// Dispatches a single task from the current pool; says whether tasks
    /// remain there.
    pub(crate) fn current_instant(&mut self) -> (more: bool)
        requires
            old(self)@.current.len() > 0,
            !old(self)@.stuck,
        ensures
            final(self)@ == crate::semantics::dispatch(old(self)@),
            more == (final(self)@.current.len() > 0),
    {
        let t = self.current_instant_tasks.pop().unwrap();
        proof {
            assert(self@ =~= (MState { current: old(self)@.current.drop_last(), ..old(self)@ }));
        }
        self.run_task(t);
        self.current_instant_tasks.len() > 0
    }

    /// Dispatches a single task from the end-of-instant pool, once the
    /// current pool has drained; says whether end-of-instant tasks remain.
    pub(crate) fn end_of_instant(&mut self) -> (more: bool)
        requires
            old(self)@.current.len() == 0,
            old(self)@.end_of_instant.len() > 0,
            !old(self)@.stuck,
        ensures
            final(self)@ == crate::semantics::dispatch(old(self)@),
            more == (final(self)@.end_of_instant.len() > 0),
    {
        let t = self.end_of_instant_tasks.pop().unwrap();
        proof {
            assert(self@ =~= (MState {
                end_of_instant: old(self)@.end_of_instant.drop_last(),
                ..old(self)@
            }));
        }
        self.run_task(t);
        self.end_of_instant_tasks.len() > 0
    }

    /// The clock tick: clears the spent pools and makes the next instant's
    /// pool current.  Says whether the new instant has work.
    pub(crate) fn move_to_next_instant(&mut self) -> (more: bool)
        ensures
            final(self)@ == crate::semantics::tick(old(self)@),
            more == (final(self)@.current.len() > 0),
    {
        self.current_instant_tasks.clear();
        self.end_of_instant_tasks.clear();
        core::mem::swap(&mut self.current_instant_tasks, &mut self.next_instant_tasks);
        proof {
            assert(final(self)@ =~= crate::semantics::tick(old(self)@));
        }
        self.current_instant_tasks.len() > 0
    }

    /// Executes a single instant: dispatches current-instant tasks until
    /// none remain (end-of-instant tasks run once the current pool is empty,
    /// and may refill it within the same instant), then ticks the clock.
    /// Indicates whether more work remains.  At most `fuel` tasks are
    /// dispatched; an instant needing more halts the machine, as does a
    /// contract violation, and a halted machine does not tick.
    pub fn instant(&mut self, fuel: u64) -> (more: bool)
        ensures
            final(self)@ == crate::semantics::instant_result(old(self)@, fuel as nat),
            more == crate::semantics::instant_more(old(self)@, fuel as nat),
    {
        let ghost s0 = self@;
        let mut spent: u64 = 0;
        while spent < fuel && !self.stuck && (self.current_instant_tasks.len() > 0
            || self.end_of_instant_tasks.len() > 0)
            invariant
                spent <= fuel,
                self@ == crate::semantics::drain(s0, spent as nat),
            decreases fuel - spent,
        {
            proof {
                crate::semantics::lemma_drain_snoc(s0, spent as nat);
            }
            if self.current_instant_tasks.len() > 0 {
                self.current_instant();
            } else {
                self.end_of_instant();
            }
            spent = spent + 1;
        }
        proof {
            crate::semantics::lemma_drain_stable(s0, spent as nat, fuel as nat);
        }
        if self.stuck {
            return false;
        }
        if self.current_instant_tasks.len() > 0 || self.end_of_instant_tasks.len() > 0 {
            self.halt_machine();
            return false;
        }
        self.move_to_next_instant()
    }

    /// Advances the machine by one step: a dispatch while the instant has
    /// work, the clock tick when work waits for the next instant.
    pub(crate) fn step_once(&mut self)
        ensures
            final(self)@ == crate::semantics::step(old(self)@),
    {
        if self.stuck {
            return;
        }
        if self.current_instant_tasks.len() > 0 {
            self.current_instant();
        } else if self.end_of_instant_tasks.len() > 0 {
            self.end_of_instant();
        } else if self.next_instant_tasks.len() > 0 {
            self.move_to_next_instant();
        }
    }

    /// Executes instants until no work remains or the machine halts, for at
    /// most `fuel` machine steps; if the budget does not finish the machine,
    /// the machine is halted.
    pub fn execute(&mut self, fuel: u64)
        ensures
            final(self)@ == crate::semantics::execute_result(old(self)@, fuel as nat),
    {
        let ghost s0 = self@;
        let mut spent: u64 = 0;
        while spent < fuel && !self.stuck && (self.current_instant_tasks.len() > 0
            || self.end_of_instant_tasks.len() > 0 || self.next_instant_tasks.len() > 0)
            invariant
                spent <= fuel,
                self@ == crate::semantics::run(s0, spent as nat),
            decreases fuel - spent,
        {
            proof {
                crate::semantics::lemma_run_snoc(s0, spent as nat);
            }
            self.step_once();
            spent = spent + 1;
        }
        proof {
            crate::semantics::lemma_run_stable(s0, spent as nat, fuel as nat);
        }
        if self.current_instant_tasks.len() > 0 || self.end_of_instant_tasks.len() > 0
            || self.next_instant_tasks.len() > 0 {
            if !self.stuck {
                self.halt_machine();
            }
        }
    }

    /// Submits a process whose value will become this runtime's result,
    /// clearing any earlier result; the caller then drives the instants
    /// (see `instant`) itself.
    pub fn submit_process(&mut self, process: Process)
        ensures
            final(self)@ == crate::semantics::seed(old(self)@, process),
    {
        self.result = None;
        self.push_current_task(Task::Call(process, Continuation::Store));
        proof {
            assert(final(self)@ =~= crate::semantics::seed(old(self)@, process));
        }
    }

    /// Whether the driven process has stored its result, and what it is.
    pub fn result_value(&self) -> (r: Option<Val>)
        ensures
            r == self@.result,
    {
        match &self.result {
            Some(v) => Some(crate::values::clone_val(v)),
            None => None,
        }
    }

    /// Runs the given process on this runtime, within the given budget of
    /// machine steps, and returns the value it produced — `None` when the
    /// process deadlocked (it awaits a signal nothing will emit), diverged
    /// past the budget, or the machine halted on a contract violation.
    pub fn run_process(&mut self, process: Process, fuel: u64) -> (r: Option<Val>)
        ensures
            final(self)@ == crate::semantics::execute_result(
                crate::semantics::seed(old(self)@, process),
                fuel as nat,
            ),
            r == final(self)@.result,
    {
        let ghost s0 = self@;
        let ghost p0 = process;
        self.result = None;
        self.push_current_task(Task::Call(process, Continuation::Store));
        proof {
            assert(self@ =~= crate::semantics::seed(s0, p0));
        }
        self.execute(fuel);
        match &self.result {
            Some(v) => Some(crate::values::clone_val(v)),
            None => None,
        }
    }

    /// Reads a shared cell.
    pub fn cell_value(&self, cell: usize) -> (r: i64)
        requires
            cell < self@.cells.len(),
        ensures
            r == self@.cells[cell as int],
    {
        self.cells[cell]
    }
}

} // verus!
