//! The mathematical model of the reactive machine.
//!
//! `MState` is the state of a scheduler: its three task pools, the signal
//! table, the join and presence cells, the shared cells, the result slot and
//! the halt flag.  `run_task` says exactly what dispatching one task does,
//! `dispatch` picks the task the scheduler would pick, `drain` and `run`
//! iterate, and `tick` moves the clock to the next instant.  Every
//! executable operation of `runtime` and `signals` is specified as an
//! equation against these functions, and the laws in `laws` are proved from
//! them.

use vstd::prelude::*;

use crate::continuations::Continuation;
use crate::continuations::Mapped;
use crate::continuations::Pause;
use crate::continuations::cont_size;
use crate::processes::LoopStatus;
use crate::processes::Process;
use crate::processes::proc_size;
use crate::runtime::JoinCell;
use crate::runtime::PresentCell;
use crate::runtime::Task;
use crate::values::Val;
use crate::values::apply_spec;
use crate::values::gather_spec;
use crate::values::lemma_apply_size;
use crate::values::status_size;
use crate::values::val_size;

verus! {

/// The model of one signal's state; `SignalRuntime` views to this.
#[verifier::ext_equal]
pub ghost struct SignalModel {
    pub emitted: bool,
    pub on_present: Seq<Continuation>,
    pub later_on_present: Seq<Continuation>,
    pub later_on_absent: Seq<Continuation>,
    pub absent_registered: bool,
    pub default_value: Val,
    pub current_value: Val,
    pub previous_value: Option<Val>,
    pub gather: crate::values::GatherFun,
}

/// The model of a whole scheduler; `Runtime` views to this.
#[verifier::ext_equal]
pub ghost struct MState {
    pub current: Seq<Task>,
    pub end_of_instant: Seq<Task>,
    pub next: Seq<Task>,
    pub signals: Seq<SignalModel>,
    pub joins: Seq<JoinCell>,
    pub presents: Seq<PresentCell>,
    pub cells: Seq<i64>,
    pub result: Option<Val>,
    pub stuck: bool,
}

/// The state of a freshly created scheduler.
pub open spec fn init_state() -> MState {
    MState {
        current: Seq::empty(),
        end_of_instant: Seq::empty(),
        next: Seq::empty(),
        signals: Seq::empty(),
        joins: Seq::empty(),
        presents: Seq::empty(),
        cells: Seq::empty(),
        result: None,
        stuck: false,
    }
}

/// Halts the machine: a contract violation was met (a consumed one-shot
/// continuation called again, a type error, a dangling index).
pub open spec fn halt(s: MState) -> MState {
    MState { stuck: true, ..s }
}

/// Appends a task to the current instant's pool.
pub open spec fn push_current(s: MState, t: Task) -> MState {
    MState { current: s.current.push(t), ..s }
}

/// Appends a task to the next instant's pool.
pub open spec fn push_next(s: MState, t: Task) -> MState {
    MState { next: s.next.push(t), ..s }
}

/// Appends a task to the end-of-instant pool.
pub open spec fn push_end_of_instant(s: MState, t: Task) -> MState {
    MState { end_of_instant: s.end_of_instant.push(t), ..s }
}

/// Whether `i` denotes a signal of this machine.
pub open spec fn valid_signal(s: MState, i: usize) -> bool {
    i < s.signals.len()
}

/// Replaces the state of signal `i`.
pub open spec fn set_signal(s: MState, i: usize, sig: SignalModel) -> MState {
    MState { signals: s.signals.update(i as int, sig), ..s }
}

/// The state of a freshly created signal.
pub open spec fn fresh_signal(
    default_value: Val,
    gather: crate::values::GatherFun,
) -> SignalModel {
    SignalModel {
        emitted: false,
        on_present: Seq::empty(),
        later_on_present: Seq::empty(),
        later_on_absent: Seq::empty(),
        absent_registered: false,
        default_value: default_value,
        current_value: default_value,
        previous_value: None,
        gather: gather,
    }
}

/// Creating a signal appends a fresh entry to the signal table.
pub open spec fn new_signal_spec(
    s: MState,
    default_value: Val,
    gather: crate::values::GatherFun,
) -> MState {
    MState { signals: s.signals.push(fresh_signal(default_value, gather)), ..s }
}

/// Registering `k` to run within the current instant once signal `i` is
/// present: dispatched at once when the signal is already present, queued
/// otherwise.
pub open spec fn on_present_spec(s: MState, i: usize, k: Continuation) -> MState {
    if !valid_signal(s, i) {
        halt(s)
    } else {
        let sig = s.signals[i as int];
        if sig.emitted {
            push_current(s, Task::Resume(k, Val::Unit))
        } else {
            set_signal(s, i, SignalModel { on_present: sig.on_present.push(k), ..sig })
        }
    }
}

/// Registering `k` to receive, next instant, the value signal `i` gathers in
/// a present instant: scheduled for the next instant when the signal is
/// already present, queued otherwise.
pub open spec fn later_on_present_spec(s: MState, i: usize, k: Continuation) -> MState {
    if !valid_signal(s, i) {
        halt(s)
    } else {
        let sig = s.signals[i as int];
        if sig.emitted {
            push_next(
                s,
                Task::Resume(Continuation::DeliverPrevious(i, Box::new(k)), Val::Unit),
            )
        } else {
            set_signal(
                s,
                i,
                SignalModel { later_on_present: sig.later_on_present.push(k), ..sig },
            )
        }
    }
}

/// Registering `k` to run next instant if signal `i` stays absent through
/// the current instant: dropped when the signal is already present; queued
/// otherwise, scheduling one flusher at the end of the current instant if
/// none is pending.
pub open spec fn later_on_absent_spec(s: MState, i: usize, k: Continuation) -> MState {
    if !valid_signal(s, i) {
        halt(s)
    } else {
        let sig = s.signals[i as int];
        if sig.emitted {
            s
        } else {
            if sig.absent_registered {
                set_signal(
                    s,
                    i,
                    SignalModel { later_on_absent: sig.later_on_absent.push(k), ..sig },
                )
            } else {
                push_end_of_instant(
                    set_signal(
                        s,
                        i,
                        SignalModel {
                            later_on_absent: sig.later_on_absent.push(k),
                            absent_registered: true,
                            ..sig
                        },
                    ),
                    Task::Resume(Continuation::FlushAbsent(i), Val::Unit),
                )
            }
        }
    }
}

/// Emitting signal `i` with value `e`: idempotent within an instant.  On the
/// first emission the signal becomes present, its end-of-instant reset is
/// scheduled, the value is gathered, the absent queue is cancelled, the
/// present queue is released into the current instant, and the
/// later-on-present waiters are scheduled to receive the previous value next
/// instant.
pub open spec fn emit_spec(s: MState, i: usize, e: Val) -> MState {
    if !valid_signal(s, i) {
        halt(s)
    } else {
        let sig = s.signals[i as int];
        if sig.emitted {
            s
        } else {
            match gather_spec(sig.gather, e, sig.current_value) {
                None => halt(s),
                Some(gv) => {
                    let ready = sig.on_present.map_values(
                        |k: Continuation| Task::Resume(k, Val::Unit),
                    );
                    let wrapped = sig.later_on_present.map_values(
                        |k: Continuation|
                            Task::Resume(
                                Continuation::DeliverPrevious(i, Box::new(k)),
                                Val::Unit,
                            ),
                    );
                    let sig2 = SignalModel {
                        emitted: true,
                        on_present: Seq::empty(),
                        later_on_present: Seq::empty(),
                        later_on_absent: Seq::empty(),
                        absent_registered: false,
                        current_value: gv,
                        ..sig
                    };
                    MState {
                        current: s.current + ready,
                        end_of_instant: s.end_of_instant.push(
                            Task::Resume(Continuation::ResetSignal(i), Val::Unit),
                        ),
                        next: s.next + wrapped,
                        signals: s.signals.update(i as int, sig2),
                        ..s
                    }
                },
            }
        }
    }
}

/// The end-of-instant reset of signal `i`: the gathered value becomes the
/// previous value, the accumulator returns to the default, presence and the
/// present queues are cleared.
pub open spec fn reset_signal_spec(s: MState, i: usize) -> MState {
    if !valid_signal(s, i) {
        halt(s)
    } else {
        let sig = s.signals[i as int];
        set_signal(
            s,
            i,
            SignalModel {
                emitted: false,
                on_present: Seq::empty(),
                later_on_present: Seq::empty(),
                previous_value: Some(sig.current_value),
                current_value: sig.default_value,
                ..sig
            },
        )
    }
}

/// The absent flusher of signal `i`, run at the end of its registration
/// instant: while still registered — no emission cancelled it — it releases
/// the absent queue into the next instant and clears the guard, so that the
/// queued continuations run as the next instant's work and nothing
/// registered later can be drained early; a cancelled flusher does nothing.
pub open spec fn flush_absent_spec(s: MState, i: usize) -> MState {
    if !valid_signal(s, i) {
        halt(s)
    } else {
        let sig = s.signals[i as int];
        if sig.absent_registered {
            MState {
                next: s.next + sig.later_on_absent.map_values(
                    |k: Continuation| Task::Resume(k, Val::Unit),
                ),
                signals: s.signals.update(
                    i as int,
                    SignalModel {
                        later_on_absent: Seq::empty(),
                        absent_registered: false,
                        ..sig
                    },
                ),
                ..s
            }
        } else {
            s
        }
    }
}

/// Delivering signal `i`'s previous value to `k`; the machine halts if no
/// instant has completed with this signal updated.
pub open spec fn deliver_previous_spec(s: MState, i: usize, k: Continuation) -> MState {
    if !valid_signal(s, i) {
        halt(s)
    } else {
        match s.signals[i as int].previous_value {
            Some(pv) => push_current(s, Task::Resume(k, pv)),
            None => halt(s),
        }
    }
}

/// One half of join cell `j` finishing with value `v` (`left` tells which):
/// the first stores its value; the second consumes the cell and schedules
/// the stored continuation with the pair.  A third completion finds the cell
/// consumed and halts the machine.
pub open spec fn join_complete_spec(s: MState, j: usize, left: bool, v: Val) -> MState {
    if !(j < s.joins.len()) {
        halt(s)
    } else {
        let cell = s.joins[j as int];
        let other = if left {
            cell.right
        } else {
            cell.left
        };
        match other {
            Some(w) => match cell.next {
                Some(k) => {
                    let pair = if left {
                        Val::Pair(Box::new(v), Box::new(w))
                    } else {
                        Val::Pair(Box::new(w), Box::new(v))
                    };
                    MState {
                        joins: s.joins.update(
                            j as int,
                            JoinCell { left: None, right: None, next: None },
                        ),
                        current: s.current.push(Task::Resume(k, pair)),
                        ..s
                    }
                },
                None => halt(s),
            },
            None => {
                let cell2 = if left {
                    JoinCell { left: Some(v), ..cell }
                } else {
                    JoinCell { right: Some(v), ..cell }
                };
                MState { joins: s.joins.update(j as int, cell2), ..s }
            },
        }
    }
}

/// One branch of presence cell `c` firing (`on_present` tells which): the
/// branch process and the shared continuation are taken from the cell and
/// scheduled; a second taking halts the machine.
pub open spec fn present_branch_spec(s: MState, c: usize, on_present: bool) -> MState {
    if !(c < s.presents.len()) {
        halt(s)
    } else {
        let cell = s.presents[c as int];
        let branch = if on_present {
            cell.process_if
        } else {
            cell.process_else
        };
        match (cell.next, branch) {
            (Some(k), Some(p)) => MState {
                presents: s.presents.update(
                    c as int,
                    PresentCell { next: None, process_if: None, process_else: None },
                ),
                current: s.current.push(Task::Call(p, k)),
                ..s
            },
            _ => halt(s),
        }
    }
}

/// Starting a `present` process on signal `i`: both branches are stored in a
/// fresh presence cell together with the continuation; the present branch is
/// registered on presence, the absent branch on absence.  Exactly one of
/// them will take the cell.
pub open spec fn present_spec(
    s: MState,
    i: usize,
    p_if: Process,
    p_else: Process,
    k: Continuation,
) -> MState {
    if !valid_signal(s, i) {
        halt(s)
    } else {
        let c = #[verifier::truncate] (s.presents.len() as usize);
        let s1 = MState {
            presents: s.presents.push(
                PresentCell {
                    next: Some(k),
                    process_if: Some(p_if),
                    process_else: Some(p_else),
                },
            ),
            ..s
        };
        later_on_absent_spec(
            on_present_spec(s1, i, Continuation::PresentIf(c)),
            i,
            Continuation::PresentElse(c),
        )
    }
}

/// The measure of one dispatch: the structural size of the task.
pub open spec fn task_size(t: Task) -> nat {
    match t {
        Task::Call(p, k) => proc_size(p) + cont_size(k),
        Task::Resume(k, v) => cont_size(k) + val_size(v),
    }
}

/// What dispatching task `t` in state `s` does.  Combinators unfold within
/// the dispatch; work whose continuation is stored in the machine (a join
/// or presence completion, a loop iteration, a previous-value delivery) is
/// pushed back into the pools, so one dispatch always terminates.
pub open spec fn run_task(s: MState, t: Task) -> MState
    decreases task_size(t),
    via run_task_decreases
{
    if s.stuck {
        s
    } else {
        match t {
            Task::Call(p, k) => match p {
                Process::Value(vp) => run_task(s, Task::Resume(k, vp.value)),
                Process::Pause(pp) => run_task(
                    s,
                    Task::Call(*pp.process, Continuation::Pause(Pause { next: Box::new(k) })),
                ),
                Process::Mapped(mp) => run_task(
                    s,
                    Task::Call(
                        *mp.process,
                        Continuation::Mapped(
                            Mapped { function: mp.function, next: Box::new(k) },
                        ),
                    ),
                ),
                Process::Flatten(fp) => run_task(
                    s,
                    Task::Call(*fp.process, Continuation::Flatten(Box::new(k))),
                ),
                Process::Join(jp) => {
                    let j = #[verifier::truncate] (s.joins.len() as usize);
                    let s1 = MState {
                        joins: s.joins.push(JoinCell { left: None, right: None, next: Some(k) }),
                        ..s
                    };
                    let s2 = push_current(
                        s1,
                        Task::Call(*jp.process_2, Continuation::JoinRight(j)),
                    );
                    run_task(s2, Task::Call(*jp.process_1, Continuation::JoinLeft(j)))
                },
                Process::While(wp) => push_current(
                    s,
                    Task::Call(*wp.process, Continuation::Loop(wp.process, Box::new(k))),
                ),
                Process::Emit(e) => run_task(
                    emit_spec(s, e.signal.signal_index, e.value),
                    Task::Resume(k, Val::Unit),
                ),
                Process::Await(a) => later_on_present_spec(s, a.signal.signal_index, k),
                Process::AwaitImmediate(a) => on_present_spec(s, a.signal.signal_index, k),
                Process::Present(pr) => present_spec(
                    s,
                    pr.signal.signal_index,
                    *pr.process_if,
                    *pr.process_else,
                    k,
                ),
            },
            Task::Resume(k, v) => match k {
                Continuation::Done => s,
                Continuation::Store => MState { result: Some(v), ..s },
                Continuation::Mapped(m) => {
                    let (r, cs) = apply_spec(m.function, v, s.cells);
                    match r {
                        Some(v2) => run_task(
                            MState { cells: cs, ..s },
                            Task::Resume(*m.next, v2),
                        ),
                        None => halt(MState { cells: cs, ..s }),
                    }
                },
                Continuation::Pause(pc) => push_next(s, Task::Resume(*pc.next, v)),
                Continuation::Flatten(next) => match v {
                    Val::Proc(p) => run_task(s, Task::Call(*p, *next)),
                    _ => halt(s),
                },
                Continuation::JoinLeft(j) => join_complete_spec(s, j, true, v),
                Continuation::JoinRight(j) => join_complete_spec(s, j, false, v),
                Continuation::Loop(body, next) => match v {
                    Val::Status(LoopStatus::Continue) => push_current(
                        s,
                        Task::Call(*body, Continuation::Loop(body, next)),
                    ),
                    Val::Status(LoopStatus::Exit(x)) => run_task(s, Task::Resume(*next, *x)),
                    _ => halt(s),
                },
                Continuation::DeliverPrevious(i, next) => deliver_previous_spec(s, i, *next),
                Continuation::PresentIf(c) => present_branch_spec(s, c, true),
                Continuation::PresentElse(c) => present_branch_spec(s, c, false),
                Continuation::FlushAbsent(i) => flush_absent_spec(s, i),
                Continuation::ResetSignal(i) => reset_signal_spec(s, i),
            },
        }
    }
}

#[via_fn]
proof fn run_task_decreases(s: MState, t: Task) {
    match t {
        Task::Resume(k, v) => match k {
            Continuation::Mapped(m) => {
                lemma_apply_size(m.function, v, s.cells);
            },
            Continuation::Loop(body, next) => {
                match v {
                    Val::Status(ls) => match ls {
                        LoopStatus::Exit(x) => {
                            assert(val_size(v) == 1 + status_size(ls));
                            assert(status_size(ls) == 1 + val_size(*x));
                        },
                        LoopStatus::Continue => {},
                    },
                    _ => {},
                }
            },
            _ => {},
        },
        _ => {},
    }
}

/// Whether the scheduler has a task to dispatch within this instant.
pub open spec fn has_task(s: MState) -> bool {
    !s.stuck && (s.current.len() > 0 || s.end_of_instant.len() > 0)
}

/// The scheduler's choice of the next dispatch: the most recently added
/// current-instant task; once those are exhausted, the most recently added
/// end-of-instant task.  Without a task this is the identity.
pub open spec fn dispatch(s: MState) -> MState {
    if s.stuck {
        s
    } else if s.current.len() > 0 {
        run_task(MState { current: s.current.drop_last(), ..s }, s.current.last())
    } else if s.end_of_instant.len() > 0 {
        run_task(
            MState { end_of_instant: s.end_of_instant.drop_last(), ..s },
            s.end_of_instant.last(),
        )
    } else {
        s
    }
}

/// `n` dispatches in a row.
pub open spec fn drain(s: MState, n: nat) -> MState
    decreases n,
{
    if n == 0 {
        s
    } else {
        drain(dispatch(s), (n - 1) as nat)
    }
}

/// Whether the instant's work is exhausted.
pub open spec fn drained(s: MState) -> bool {
    s.current.len() == 0 && s.end_of_instant.len() == 0
}

/// The clock tick: the next instant's pool becomes the current one.
pub open spec fn tick(s: MState) -> MState {
    MState { current: s.next, end_of_instant: Seq::empty(), next: Seq::empty(), ..s }
}

/// One step of the machine: a dispatch while the instant has work, the
/// clock tick when it has none but work is waiting for the next instant,
/// and the identity on a halted or finished machine.
pub open spec fn step(s: MState) -> MState {
    if s.stuck {
        s
    } else if s.current.len() > 0 || s.end_of_instant.len() > 0 {
        dispatch(s)
    } else if s.next.len() > 0 {
        tick(s)
    } else {
        s
    }
}

/// `n` machine steps in a row.
pub open spec fn run(s: MState, n: nat) -> MState
    decreases n,
{
    if n == 0 {
        s
    } else {
        run(step(s), (n - 1) as nat)
    }
}

/// A machine which will do nothing more: halted, or out of work.
pub open spec fn finished(s: MState) -> bool {
    s.stuck || (s.current.len() == 0 && s.end_of_instant.len() == 0 && s.next.len() == 0)
}

/// The state of a scheduler in state `s` the moment a process `p` has been
/// submitted to compute the scheduler's result.
pub open spec fn seed(s: MState, p: Process) -> MState {
    MState {
        current: s.current.push(Task::Call(p, Continuation::Store)),
        result: None,
        ..s
    }
}

/// What `Runtime::instant` with the given fuel leaves behind: the state
/// after up to `fuel` dispatches; then, if the instant's work was exhausted
/// within the budget, one clock tick; a machine that halted keeps its state,
/// and one whose instant outlives the budget is halted.
pub open spec fn instant_result(s: MState, fuel: nat) -> MState {
    let d = drain(s, fuel);
    if d.stuck {
        d
    } else if drained(d) {
        tick(d)
    } else {
        halt(d)
    }
}

/// Whether `Runtime::instant` with the given fuel reports more work.
pub open spec fn instant_more(s: MState, fuel: nat) -> bool {
    let d = drain(s, fuel);
    !d.stuck && drained(d) && d.next.len() > 0
}

/// What `Runtime::execute` with the given fuel leaves behind: the state
/// after up to `fuel` machine steps when these finish the machine, and that
/// state halted when they do not.
pub open spec fn execute_result(s: MState, fuel: nat) -> MState {
    let d = run(s, fuel);
    if finished(d) {
        d
    } else {
        halt(d)
    }
}

/// Draining one step more is dispatching after draining.
pub proof fn lemma_drain_snoc(s: MState, n: nat)
    ensures
        drain(s, n + 1) == dispatch(drain(s, n)),
    decreases n,
{
    if n == 0 {
        assert(drain(s, 1) == drain(dispatch(s), 0));
    } else {
        lemma_drain_snoc(dispatch(s), (n - 1) as nat);
        assert(drain(s, n + 1) == drain(dispatch(s), n));
        assert(drain(s, n) == drain(dispatch(s), (n - 1) as nat));
    }
}

/// Running one step more is stepping after running.
pub proof fn lemma_run_snoc(s: MState, n: nat)
    ensures
        run(s, n + 1) == step(run(s, n)),
    decreases n,
{
    if n == 0 {
        assert(run(s, 1) == run(step(s), 0));
    } else {
        lemma_run_snoc(step(s), (n - 1) as nat);
        assert(run(s, n + 1) == run(step(s), n));
        assert(run(s, n) == run(step(s), (n - 1) as nat));
    }
}

/// Once the instant's work is exhausted (or the machine halted), further
/// dispatches change nothing.
pub proof fn lemma_drain_stable(s: MState, m: nat, n: nat)
    requires
        m <= n,
    ensures
        (drain(s, m).stuck || drained(drain(s, m))) ==> drain(s, n) == drain(s, m),
    decreases n - m,
{
    if m < n {
        let d = drain(s, m);
        if d.stuck || drained(d) {
            assert(dispatch(d) == d);
            lemma_drain_snoc(s, m);
            lemma_drain_stable(s, m + 1, n);
        }
    }
}

/// Once the machine is finished, further steps change nothing.
pub proof fn lemma_run_stable(s: MState, m: nat, n: nat)
    requires
        m <= n,
    ensures
        finished(run(s, m)) ==> run(s, n) == run(s, m),
    decreases n - m,
{
    if m < n {
        let d = run(s, m);
        if finished(d) {
            assert(step(d) == d);
            lemma_run_snoc(s, m);
            lemma_run_stable(s, m + 1, n);
        }
    }
}

/// Steps compose: running `m + k` steps is running `m`, then `k`.
pub proof fn lemma_run_add(s: MState, m: nat, k: nat)
    ensures
        run(run(s, m), k) == run(s, m + k),
    decreases m,
{
    if m > 0 {
        lemma_run_add(step(s), (m - 1) as nat, k);
    }
}

} // verus!
