//! The laws of the runtime, proved against the model in `semantics`.

use vstd::prelude::*;

use crate::continuations::Continuation;
use crate::processes::LoopStatus;
use crate::processes::JoinProcess;
use crate::processes::PauseProcess;
use crate::processes::Process;
use crate::processes::ValueProcess;
use crate::runtime::JoinCell;
use crate::runtime::Task;
use crate::semantics::MState;
use crate::semantics::dispatch;
use crate::semantics::drained;
use crate::semantics::execute_result;
use crate::semantics::finished;
use crate::semantics::init_state;
use crate::semantics::run;
use crate::semantics::seed;
use crate::semantics::step;
use crate::semantics::tick;
use crate::values::Val;

verus! {

/// Termination: a submitted `value(v)` stores v within the very first
/// instant — after one machine step the machine is finished, no clock tick
/// ever happens, and the result is v.  Through the contract of
/// `execute_process`, any step budget of at least one therefore returns
/// `Some(v)`.
pub proof fn law_value_terminates(v: Val, fuel: u64)
    requires
        fuel >= 1,
    ensures
        finished(run(seed(init_state(), Process::Value(ValueProcess { value: v })), 1)),
        run(seed(init_state(), Process::Value(ValueProcess { value: v })), 1).result == Some(v),
        execute_result(
            seed(init_state(), Process::Value(ValueProcess { value: v })),
            fuel as nat,
        ).result == Some(v),
{
    reveal_with_fuel(crate::semantics::run, 2);
    reveal_with_fuel(crate::semantics::run_task, 4);
    let p = Process::Value(ValueProcess { value: v });
    let s0 = seed(init_state(), p);
    let s1 = step(s0);
    assert(s0.current.last() == Task::Call(p, Continuation::Store));
    assert(s1 == crate::semantics::run_task(
        MState { current: s0.current.drop_last(), ..s0 },
        Task::Call(p, Continuation::Store),
    ));
    assert(finished(s1) && s1.result == Some(v));
    assert(run(s0, 1) == s1);
    crate::semantics::lemma_run_stable(s0, 1, fuel as nat);
}

/// Pause is exactly one instant: a submitted `value(v).pause()` has stored
/// nothing by the end of the first instant's work, needs exactly one clock
/// tick, and stores v with the first step of the following instant — not
/// the same instant, not two later.
pub proof fn law_pause_one_instant(v: Val)
    ensures
        ({
            let p = Process::Pause(
                PauseProcess {
                    process: Box::new(Process::Value(ValueProcess { value: v })),
                },
            );
            let s0 = seed(init_state(), p);
            drained(run(s0, 1)) && run(s0, 1).result == None::<Val> && !finished(run(s0, 1)) && run(
                s0,
                2,
            ) == tick(run(s0, 1)) && finished(run(s0, 3)) && run(s0, 3).result == Some(v)
        }),
{
    reveal_with_fuel(crate::semantics::run, 2);
    reveal_with_fuel(crate::semantics::run_task, 4);
    let p = Process::Pause(
        PauseProcess { process: Box::new(Process::Value(ValueProcess { value: v })) },
    );
    let s0 = seed(init_state(), p);
    let s1 = step(s0);
    assert(s0.current.last() == Task::Call(p, Continuation::Store));
    assert(s1 == crate::semantics::run_task(
        MState { current: s0.current.drop_last(), ..s0 },
        Task::Call(p, Continuation::Store),
    ));
    assert(drained(s1) && s1.result == None::<Val> && s1.next.len() == 1);
    assert(run(s0, 1) == s1);
    let s2 = step(s1);
    assert(s2 == tick(s1));
    assert(run(s0, 2) == s2) by {
        assert(run(s1, 1) == s2);
        crate::semantics::lemma_run_add(s0, 1, 1);
    }
    let s3 = step(s2);
    assert(s3 == crate::semantics::run_task(
        MState { current: s2.current.drop_last(), ..s2 },
        Task::Resume(Continuation::Store, v),
    ));
    assert(finished(s3) && s3.result == Some(v));
    assert(run(s0, 3) == s3) by {
        assert(run(s2, 1) == s3);
        crate::semantics::lemma_run_add(s0, 2, 1);
    }
}

/// A pure process that produces `v` after exactly `m` pauses.
pub open spec fn pause_tower(m: nat, v: Val) -> Process
    decreases m,
{
    if m == 0 {
        Process::Value(ValueProcess { value: v })
    } else {
        Process::Pause(PauseProcess { process: Box::new(pause_tower((m - 1) as nat, v)) })
    }
}

/// The continuation `k` deferred by `m` instants.
pub open spec fn pause_conts(m: nat, k: Continuation) -> Continuation
    decreases m,
{
    if m == 0 {
        k
    } else {
        Continuation::Pause(
            crate::continuations::Pause {
                next: Box::new(pause_conts((m - 1) as nat, k)),
            },
        )
    }
}

/// Whether the machine's next step is a clock tick.
pub open spec fn tick_step(s: MState) -> bool {
    !s.stuck && s.current.len() == 0 && s.end_of_instant.len() == 0 && s.next.len() > 0
}

/// How many of the first `n` machine steps from `s` are clock ticks: the
/// number of completed instants.
pub open spec fn ticks(s: MState, n: nat) -> nat
    decreases n,
{
    if n == 0 {
        0
    } else {
        (if tick_step(s) {
            1nat
        } else {
            0nat
        }) + ticks(step(s), (n - 1) as nat)
    }
}

/// Tick counts compose like runs do.
pub proof fn lemma_ticks_add(s: MState, i: nat, j: nat)
    ensures
        ticks(s, i + j) == ticks(s, i) + ticks(run(s, i), j),
    decreases i,
{
    if i > 0 {
        lemma_ticks_add(step(s), (i - 1) as nat, j);
    }
}

/// The larger of two counts.
pub open spec fn max_nat(m: nat, n: nat) -> nat {
    if m >= n {
        m
    } else {
        n
    }
}

/// How many machine steps a join of an `m`-pause tower and an `n`-pause
/// tower takes from submission to completion.
pub open spec fn tower_steps(m: nat, n: nat) -> nat
    decreases m + n,
{
    if m == 0 && n == 0 {
        3
    } else if m == 0 {
        2 * n + 3
    } else if n == 0 {
        2 * m + 3
    } else {
        3 + tower_steps((m - 1) as nat, (n - 1) as nat)
    }
}

/// The step count of a tower join does not depend on the order of its
/// sides.
pub proof fn lemma_tower_steps_symmetric(m: nat, n: nat)
    ensures
        tower_steps(m, n) == tower_steps(n, m),
    decreases m + n,
{
    if m > 0 && n > 0 {
        lemma_tower_steps_symmetric((m - 1) as nat, (n - 1) as nat);
    }
}

/// The pending half of a join: `Call`ing a tower against a join side is the
/// same as resuming the deferred join side with the tower's value.
pub proof fn lemma_tower_call(s: MState, m: nat, v: Val, k: Continuation)
    ensures
        crate::semantics::run_task(s, Task::Call(pause_tower(m, v), k))
            == crate::semantics::run_task(s, Task::Resume(pause_conts(m, k), v)),
    decreases m,
{
    if m == 0 {
        assert(pause_tower(0, v) == Process::Value(ValueProcess { value: v }));
        assert(pause_conts(0, k) == k);
        assert(crate::semantics::run_task(s, Task::Call(pause_tower(m, v), k))
            == crate::semantics::run_task(s, Task::Resume(pause_conts(m, k), v)));
    } else {
        let deferred = Continuation::Pause(
            crate::continuations::Pause { next: Box::new(k) },
        );
        assert(pause_tower(m, v) == Process::Pause(
            PauseProcess { process: Box::new(pause_tower((m - 1) as nat, v)) },
        ));
        lemma_tower_call(s, (m - 1) as nat, v, deferred);
        lemma_pause_conts_shift((m - 1) as nat, k);
        if !s.stuck {
            assert(crate::semantics::run_task(s, Task::Call(pause_tower(m, v), k))
                == crate::semantics::run_task(
                s,
                Task::Call(pause_tower((m - 1) as nat, v), deferred),
            ));
        }
        assert(pause_conts((m - 1) as nat, deferred) == pause_conts(m, k));
        assert(crate::semantics::run_task(s, Task::Call(pause_tower(m, v), k))
            == crate::semantics::run_task(s, Task::Resume(pause_conts(m, k), v)));
    }
}

/// Deferring a continuation then stacking `x` pauses is stacking `x + 1`.
pub proof fn lemma_pause_conts_shift(x: nat, k: Continuation)
    ensures
        pause_conts(
            x,
            Continuation::Pause(crate::continuations::Pause { next: Box::new(k) }),
        ) == pause_conts(x + 1, k),
    decreases x,
{
    if x == 0 {
        assert(pause_conts(0, k) == k);
        assert(pause_conts(1, k) == Continuation::Pause(
            crate::continuations::Pause { next: Box::new(pause_conts(0, k)) },
        ));
    } else {
        lemma_pause_conts_shift((x - 1) as nat, k);
        assert(pause_conts(x + 1, k) == Continuation::Pause(
            crate::continuations::Pause { next: Box::new(pause_conts(x, k)) },
        ));
    }
}

/// The task of a join's left side with `x` pauses left.
pub open spec fn left_task(x: nat, a: Val) -> Task {
    Task::Resume(pause_conts(x, Continuation::JoinLeft(0)), a)
}

/// The task of a join's right side with `x` pauses left.
pub open spec fn right_task(x: nat, b: Val) -> Task {
    Task::Resume(pause_conts(x, Continuation::JoinRight(0)), b)
}

/// A machine at the start of an instant in which both sides of a tower join
/// are still pending; the order of the two tasks alternates from instant to
/// instant.
pub open spec fn towers_state(m: nat, n: nat, left_first: bool, a: Val, b: Val) -> MState {
    MState {
        current: if left_first {
            seq![left_task(m, a), right_task(n, b)]
        } else {
            seq![right_task(n, b), left_task(m, a)]
        },
        joins: seq![JoinCell { left: None, right: None, next: Some(Continuation::Store) }],
        ..init_state()
    }
}

/// A machine at the start of an instant in which one side of a tower join
/// has finished and stored its value, while the other still has `x` pauses
/// to go.
pub open spec fn single_state(x: nat, left_pending: bool, a: Val, b: Val) -> MState {
    MState {
        current: if left_pending {
            seq![left_task(x, a)]
        } else {
            seq![right_task(x, b)]
        },
        joins: if left_pending {
            seq![JoinCell { left: None, right: Some(b), next: Some(Continuation::Store) }]
        } else {
            seq![JoinCell { left: Some(a), right: None, next: Some(Continuation::Store) }]
        },
        ..init_state()
    }
}

/// A join whose one pending side has `x` pauses left finishes with the pair
/// `(a, b)` after `2x + 2` more steps, `x` of them clock ticks.
pub proof fn lemma_single_side(x: nat, left_pending: bool, a: Val, b: Val)
    ensures
        ({
            let s = single_state(x, left_pending, a, b);
            let steps = 2 * x + 2;
            finished(run(s, steps)) && run(s, steps).result == Some(
                Val::Pair(Box::new(a), Box::new(b)),
            ) && ticks(s, steps) == x
        }),
    decreases x,
{
    reveal_with_fuel(crate::semantics::run, 4);
    reveal_with_fuel(crate::semantics::run_task, 4);
    reveal_with_fuel(ticks, 4);
    let s = single_state(x, left_pending, a, b);
    let pending = if left_pending {
        left_task(x, a)
    } else {
        right_task(x, b)
    };
    assert(s.current.last() == pending);
    assert(s.current.drop_last() =~= Seq::<Task>::empty());
    if x == 0 {
        let s1 = step(s);
        let pair = Val::Pair(Box::new(a), Box::new(b));
        assert(s1.current =~= seq![Task::Resume(Continuation::Store, pair)]);
        let s2 = step(s1);
        assert(s2.result == Some(pair) && finished(s2));
        assert(run(s, 2) == s2);
        assert(ticks(s, 2) == 0);
    } else {
        let s1 = step(s);
        let rest = if left_pending {
            left_task((x - 1) as nat, a)
        } else {
            right_task((x - 1) as nat, b)
        };
        assert(s1.next =~= seq![rest]);
        assert(s1.current.len() == 0 && s1.end_of_instant.len() == 0 && !s1.stuck);
        let s2 = step(s1);
        assert(s2 == crate::semantics::tick(s1));
        assert(s2 =~= single_state((x - 1) as nat, left_pending, a, b));
        lemma_single_side((x - 1) as nat, left_pending, a, b);
        assert(run(s, 2) == s2);
        crate::semantics::lemma_run_add(s, 2, 2 * (x - 1) as nat + 2);
        lemma_ticks_add(s, 2, 2 * (x - 1) as nat + 2);
        assert(ticks(s, 2) == 1);
    }
}

/// Dispatching a task that still has pauses stacked on it defers the rest
/// of it to the next instant.
pub proof fn lemma_step_pause_task(s: MState, x: nat, k: Continuation, c: Val)
    requires
        x >= 1,
        !s.stuck,
    ensures
        crate::semantics::run_task(s, Task::Resume(pause_conts(x, k), c))
            == crate::semantics::push_next(
            s,
            Task::Resume(pause_conts((x - 1) as nat, k), c),
        ),
{
    assert(pause_conts(x, k) == Continuation::Pause(
        crate::continuations::Pause { next: Box::new(pause_conts((x - 1) as nat, k)) },
    ));
}

/// One whole instant of a tower join with both sides still pending: each
/// side sheds one pause, and their order swaps.
pub proof fn lemma_tower_instant_both(m: nat, n: nat, left_first: bool, a: Val, b: Val)
    requires
        m >= 1,
        n >= 1,
    ensures
        run(towers_state(m, n, left_first, a, b), 3) == towers_state(
            (m - 1) as nat,
            (n - 1) as nat,
            !left_first,
            a,
            b,
        ),
        ticks(towers_state(m, n, left_first, a, b), 3) == 1,
{
    reveal_with_fuel(crate::semantics::run, 4);
    reveal_with_fuel(ticks, 4);
    let s = towers_state(m, n, left_first, a, b);
    let first = if left_first {
        left_task(m, a)
    } else {
        right_task(n, b)
    };
    let second = if left_first {
        right_task(n, b)
    } else {
        left_task(m, a)
    };
    let second_rest = if left_first {
        right_task((n - 1) as nat, b)
    } else {
        left_task((m - 1) as nat, a)
    };
    let first_rest = if left_first {
        left_task((m - 1) as nat, a)
    } else {
        right_task((n - 1) as nat, b)
    };
    let smid = MState { current: s.current.drop_last(), ..s };
    assert(s.current.last() == second && smid.current =~= seq![first]);
    if left_first {
        lemma_step_pause_task(smid, n, Continuation::JoinRight(0), b);
    } else {
        lemma_step_pause_task(smid, m, Continuation::JoinLeft(0), a);
    }
    let s1 = crate::semantics::push_next(smid, second_rest);
    assert(step(s) == s1);
    let s1mid = MState { current: s1.current.drop_last(), ..s1 };
    assert(s1.current.last() == first && s1mid.current =~= Seq::<Task>::empty());
    if left_first {
        lemma_step_pause_task(s1mid, m, Continuation::JoinLeft(0), a);
    } else {
        lemma_step_pause_task(s1mid, n, Continuation::JoinRight(0), b);
    }
    let s2 = crate::semantics::push_next(s1mid, first_rest);
    assert(step(s1) == s2);
    assert(step(s2) == crate::semantics::tick(s2));
    assert(crate::semantics::tick(s2) =~= towers_state(
        (m - 1) as nat,
        (n - 1) as nat,
        !left_first,
        a,
        b,
    ));
}

/// One whole instant of a tower join in which exactly one side reaches its
/// value: that side stores it, the other sheds a pause.
#[verifier::rlimit(50)]
#[verifier::spinoff_prover]
pub proof fn lemma_tower_instant_one(m: nat, n: nat, left_first: bool, a: Val, b: Val)
    requires
        m == 0 && n >= 1 || n == 0 && m >= 1,
    ensures
        m == 0 ==> run(towers_state(m, n, left_first, a, b), 3) == single_state(
            (n - 1) as nat,
            false,
            a,
            b,
        ),
        n == 0 ==> run(towers_state(m, n, left_first, a, b), 3) == single_state(
            (m - 1) as nat,
            true,
            a,
            b,
        ),
        ticks(towers_state(m, n, left_first, a, b), 3) == 1,
{
    reveal_with_fuel(crate::semantics::run, 4);
    reveal_with_fuel(crate::semantics::run_task, 2);
    reveal_with_fuel(ticks, 4);
    let s = towers_state(m, n, left_first, a, b);
    let smid = MState { current: s.current.drop_last(), ..s };
    if m == 0 {
        // The left side finishes this instant and stores `a`; the right
        // sheds one pause.  Which of the two is dispatched first does not
        // matter: they touch different parts of the state.
        let stored = seq![
            JoinCell { left: Some(a), right: None, next: Some(Continuation::Store) },
        ];
        if left_first {
            assert(s.current.last() == right_task(n, b) && smid.current =~= seq![
                left_task(0, a),
            ]);
            lemma_step_pause_task(smid, n, Continuation::JoinRight(0), b);
            let s1 = crate::semantics::push_next(smid, right_task((n - 1) as nat, b));
            assert(step(s) == s1);
            let s1mid = MState { current: s1.current.drop_last(), ..s1 };
            assert(s1.current.last() == left_task(0, a) && s1mid.current
                =~= Seq::<Task>::empty());
            assert(pause_conts(0, Continuation::JoinLeft(0)) == Continuation::JoinLeft(0));
            let s2 = step(s1);
            assert(s2 == crate::semantics::join_complete_spec(s1mid, 0, true, a));
            assert(s2.joins =~= stored);
            let s3 = step(s2);
            assert(s3 == crate::semantics::tick(s2));
            assert(s3 =~= single_state((n - 1) as nat, false, a, b));
        } else {
            assert(s.current.last() == left_task(0, a) && smid.current =~= seq![
                right_task(n, b),
            ]);
            assert(pause_conts(0, Continuation::JoinLeft(0)) == Continuation::JoinLeft(0));
            let s1 = step(s);
            assert(s1 == crate::semantics::join_complete_spec(smid, 0, true, a));
            assert(s1.joins =~= stored && s1.current =~= seq![right_task(n, b)]
                && s1.next =~= Seq::<Task>::empty() && s1.end_of_instant
                =~= Seq::<Task>::empty() && !s1.stuck && s1.result == None::<Val>);
            let s1mid = MState { current: s1.current.drop_last(), ..s1 };
            assert(s1.current.last() == right_task(n, b) && s1mid.current
                =~= Seq::<Task>::empty());
            lemma_step_pause_task(s1mid, n, Continuation::JoinRight(0), b);
            let s2 = crate::semantics::push_next(s1mid, right_task((n - 1) as nat, b));
            assert(step(s1) == s2);
            let s3 = step(s2);
            assert(s3 == crate::semantics::tick(s2));
            assert(s3 =~= single_state((n - 1) as nat, false, a, b));
        }
    } else {
        let stored = seq![
            JoinCell { left: None, right: Some(b), next: Some(Continuation::Store) },
        ];
        if left_first {
            assert(s.current.last() == right_task(0, b) && smid.current =~= seq![
                left_task(m, a),
            ]);
            assert(pause_conts(0, Continuation::JoinRight(0)) == Continuation::JoinRight(0));
            let s1 = step(s);
            assert(s1 == crate::semantics::join_complete_spec(smid, 0, false, b));
            assert(s1.joins =~= stored && s1.current =~= seq![left_task(m, a)]
                && s1.next =~= Seq::<Task>::empty() && s1.end_of_instant
                =~= Seq::<Task>::empty() && !s1.stuck && s1.result == None::<Val>);
            let s1mid = MState { current: s1.current.drop_last(), ..s1 };
            assert(s1.current.last() == left_task(m, a) && s1mid.current
                =~= Seq::<Task>::empty());
            lemma_step_pause_task(s1mid, m, Continuation::JoinLeft(0), a);
            let s2 = crate::semantics::push_next(s1mid, left_task((m - 1) as nat, a));
            assert(step(s1) == s2);
            let s3 = step(s2);
            assert(s3 == crate::semantics::tick(s2));
            assert(s3 =~= single_state((m - 1) as nat, true, a, b));
        } else {
            assert(s.current.last() == left_task(m, a) && smid.current =~= seq![
                right_task(0, b),
            ]);
            lemma_step_pause_task(smid, m, Continuation::JoinLeft(0), a);
            let s1 = crate::semantics::push_next(smid, left_task((m - 1) as nat, a));
            assert(step(s) == s1);
            let s1mid = MState { current: s1.current.drop_last(), ..s1 };
            assert(s1.current.last() == right_task(0, b) && s1mid.current
                =~= Seq::<Task>::empty());
            assert(pause_conts(0, Continuation::JoinRight(0)) == Continuation::JoinRight(0));
            let s2 = step(s1);
            assert(s2 == crate::semantics::join_complete_spec(s1mid, 0, false, b));
            assert(s2.joins =~= stored);
            let s3 = step(s2);
            assert(s3 == crate::semantics::tick(s2));
            assert(s3 =~= single_state((m - 1) as nat, true, a, b));
        }
    }
}

/// The final instant of a tower join: both sides are immediate, the second
/// dispatch completes the pair, the third stores it.
pub proof fn lemma_tower_instant_final(left_first: bool, a: Val, b: Val)
    ensures
        finished(run(towers_state(0, 0, left_first, a, b), 3)),
        run(towers_state(0, 0, left_first, a, b), 3).result == Some(
            Val::Pair(Box::new(a), Box::new(b)),
        ),
        ticks(towers_state(0, 0, left_first, a, b), 3) == 0,
{
    reveal_with_fuel(crate::semantics::run, 4);
    reveal_with_fuel(crate::semantics::run_task, 2);
    reveal_with_fuel(ticks, 4);
    let s = towers_state(0, 0, left_first, a, b);
    let pair = Val::Pair(Box::new(a), Box::new(b));
    assert(pause_conts(0, Continuation::JoinLeft(0)) == Continuation::JoinLeft(0));
    assert(pause_conts(0, Continuation::JoinRight(0)) == Continuation::JoinRight(0));
    let smid = MState { current: s.current.drop_last(), ..s };
    let s1 = step(s);
    if left_first {
        assert(s.current.last() == right_task(0, b) && smid.current =~= seq![
            left_task(0, a),
        ]);
        assert(s1 == crate::semantics::join_complete_spec(smid, 0, false, b));
    } else {
        assert(s.current.last() == left_task(0, a) && smid.current =~= seq![
            right_task(0, b),
        ]);
        assert(s1 == crate::semantics::join_complete_spec(smid, 0, true, a));
    }
    let s1mid = MState { current: s1.current.drop_last(), ..s1 };
    assert(s1mid.current =~= Seq::<Task>::empty());
    let s2 = step(s1);
    if left_first {
        assert(s1.current.last() == left_task(0, a));
        assert(s2 == crate::semantics::join_complete_spec(s1mid, 0, true, a));
    } else {
        assert(s1.current.last() == right_task(0, b));
        assert(s2 == crate::semantics::join_complete_spec(s1mid, 0, false, b));
    }
    assert(s2.current =~= seq![Task::Resume(Continuation::Store, pair)]);
    let s3 = step(s2);
    assert(s3.result == Some(pair) && finished(s3));
}

/// A tower join whose two sides have `m` and `n` pauses left finishes with
/// the pair `(a, b)` after `tower_steps(m, n)` more steps, `max(m, n)` of
/// them clock ticks — whichever side's tasks run first.
pub proof fn lemma_tower_join(m: nat, n: nat, left_first: bool, a: Val, b: Val)
    ensures
        ({
            let s = towers_state(m, n, left_first, a, b);
            let steps = tower_steps(m, n);
            finished(run(s, steps)) && run(s, steps).result == Some(
                Val::Pair(Box::new(a), Box::new(b)),
            ) && ticks(s, steps) == max_nat(m, n)
        }),
    decreases m + n,
{
    let s = towers_state(m, n, left_first, a, b);
    if m == 0 && n == 0 {
        lemma_tower_instant_final(left_first, a, b);
    } else if m == 0 {
        lemma_tower_instant_one(m, n, left_first, a, b);
        lemma_single_side((n - 1) as nat, false, a, b);
        crate::semantics::lemma_run_add(s, 3, 2 * (n - 1) as nat + 2);
        lemma_ticks_add(s, 3, 2 * (n - 1) as nat + 2);
    } else if n == 0 {
        lemma_tower_instant_one(m, n, left_first, a, b);
        lemma_single_side((m - 1) as nat, true, a, b);
        crate::semantics::lemma_run_add(s, 3, 2 * (m - 1) as nat + 2);
        lemma_ticks_add(s, 3, 2 * (m - 1) as nat + 2);
    } else {
        lemma_tower_instant_both(m, n, left_first, a, b);
        lemma_tower_join((m - 1) as nat, (n - 1) as nat, !left_first, a, b);
        crate::semantics::lemma_run_add(s, 3, tower_steps((m - 1) as nat, (n - 1) as nat));
        lemma_ticks_add(s, 3, tower_steps((m - 1) as nat, (n - 1) as nat));
    }
}

/// The machine state right after a tower join's first dispatch: the join
/// cell exists, the left side has run to its first pause (or completed),
/// and the right side's call waits in the current pool.
pub open spec fn seed_mid(m: nat, n: nat, a: Val, b: Val) -> MState {
    if m == 0 {
        MState {
            current: seq![Task::Call(pause_tower(n, b), Continuation::JoinRight(0))],
            joins: seq![
                JoinCell { left: Some(a), right: None, next: Some(Continuation::Store) },
            ],
            ..init_state()
        }
    } else {
        MState {
            current: seq![Task::Call(pause_tower(n, b), Continuation::JoinRight(0))],
            next: seq![left_task((m - 1) as nat, a)],
            joins: seq![JoinCell { left: None, right: None, next: Some(Continuation::Store) }],
            ..init_state()
        }
    }
}

/// The first dispatch of a submitted tower join allocates the join cell,
/// schedules the right side and runs the left side to its first pause.
pub proof fn lemma_seed_join_first(m: nat, n: nat, a: Val, b: Val)
    ensures
        ({
            let s0 = seed(
                init_state(),
                Process::Join(
                    JoinProcess {
                        process_1: Box::new(pause_tower(m, a)),
                        process_2: Box::new(pause_tower(n, b)),
                    },
                ),
            );
            step(s0) == seed_mid(m, n, a, b) && !tick_step(s0)
        }),
{
    let p = Process::Join(
        JoinProcess {
            process_1: Box::new(pause_tower(m, a)),
            process_2: Box::new(pause_tower(n, b)),
        },
    );
    let s0 = seed(init_state(), p);
    assert(s0.current.last() == Task::Call(p, Continuation::Store));
    assert((MState { current: s0.current.drop_last(), ..s0 }) =~= init_state());
    let shalf = MState {
        current: seq![Task::Call(pause_tower(n, b), Continuation::JoinRight(0))],
        joins: seq![JoinCell { left: None, right: None, next: Some(Continuation::Store) }],
        ..init_state()
    };
    assert(crate::semantics::run_task(init_state(), Task::Call(p, Continuation::Store))
        == crate::semantics::run_task(
        shalf,
        Task::Call(pause_tower(m, a), Continuation::JoinLeft(0)),
    )) by {
        reveal_with_fuel(crate::semantics::run_task, 2);
        assert(crate::semantics::push_current(
            MState {
                joins: init_state().joins.push(
                    JoinCell { left: None, right: None, next: Some(Continuation::Store) },
                ),
                ..init_state()
            },
            Task::Call(pause_tower(n, b), Continuation::JoinRight(0)),
        ) =~= shalf);
    }
    lemma_tower_call(shalf, m, a, Continuation::JoinLeft(0));
    assert(step(s0) == crate::semantics::run_task(shalf, left_task(m, a)));
    if m == 0 {
        assert(pause_conts(0, Continuation::JoinLeft(0)) == Continuation::JoinLeft(0));
        assert(crate::semantics::run_task(shalf, left_task(0, a))
            == crate::semantics::join_complete_spec(shalf, 0, true, a));
        assert(crate::semantics::join_complete_spec(shalf, 0, true, a) =~= seed_mid(
            m,
            n,
            a,
            b,
        ));
    } else {
        lemma_step_pause_task(shalf, m, Continuation::JoinLeft(0), a);
        assert(crate::semantics::push_next(shalf, left_task((m - 1) as nat, a)) =~= seed_mid(
            m,
            n,
            a,
            b,
        ));
    }
}

/// From the state after a tower join's first dispatch, two more steps run
/// the right side to its first pause (or completion) and tick the clock —
/// or, when both sides were immediate, store the pair.
pub proof fn lemma_seed_join_rest(m: nat, n: nat, a: Val, b: Val)
    ensures
        ({
            let sm = seed_mid(m, n, a, b);
            &&& (m == 0 && n == 0 ==> finished(run(sm, 2)) && run(sm, 2).result == Some(
                Val::Pair(Box::new(a), Box::new(b)),
            ) && ticks(sm, 2) == 0)
            &&& (m == 0 && n >= 1 ==> run(sm, 2) == single_state((n - 1) as nat, false, a, b)
                && ticks(sm, 2) == 1)
            &&& (m >= 1 && n == 0 ==> run(sm, 2) == single_state((m - 1) as nat, true, a, b)
                && ticks(sm, 2) == 1)
            &&& (m >= 1 && n >= 1 ==> run(sm, 2) == towers_state(
                (m - 1) as nat,
                (n - 1) as nat,
                true,
                a,
                b,
            ) && ticks(sm, 2) == 1)
        }),
{
    reveal_with_fuel(crate::semantics::run, 3);
    reveal_with_fuel(ticks, 3);
    let sm = seed_mid(m, n, a, b);
    let pair = Val::Pair(Box::new(a), Box::new(b));
    let smmid = MState { current: sm.current.drop_last(), ..sm };
    assert(sm.current.last() == Task::Call(pause_tower(n, b), Continuation::JoinRight(0))
        && smmid.current =~= Seq::<Task>::empty());
    lemma_tower_call(smmid, n, b, Continuation::JoinRight(0));
    let s2 = step(sm);
    assert(s2 == crate::semantics::run_task(smmid, right_task(n, b)));
    if n == 0 {
        assert(pause_conts(0, Continuation::JoinRight(0)) == Continuation::JoinRight(0));
        assert(s2 == crate::semantics::join_complete_spec(smmid, 0, false, b)) by {
            reveal_with_fuel(crate::semantics::run_task, 2);
        }
        if m == 0 {
            assert(s2.current =~= seq![Task::Resume(Continuation::Store, pair)]);
            let s3 = step(s2);
            assert(s3.result == Some(pair) && finished(s3)) by {
                reveal_with_fuel(crate::semantics::run_task, 2);
            }
        } else {
            assert(s2.joins =~= seq![
                JoinCell { left: None, right: Some(b), next: Some(Continuation::Store) },
            ]);
            let s3 = step(s2);
            assert(s3 == crate::semantics::tick(s2));
            assert(s3 =~= single_state((m - 1) as nat, true, a, b));
        }
    } else {
        lemma_step_pause_task(smmid, n, Continuation::JoinRight(0), b);
        assert(s2 == crate::semantics::push_next(smmid, right_task((n - 1) as nat, b)));
        let s3 = step(s2);
        assert(s3 == crate::semantics::tick(s2));
        if m == 0 {
            assert(s3 =~= single_state((n - 1) as nat, false, a, b));
        } else {
            assert(s3 =~= towers_state((m - 1) as nat, (n - 1) as nat, true, a, b));
        }
    }
}

/// The submission instant of a tower join: the join cell is allocated, each
/// side runs up to its first pause (an immediate side completes), and the
/// clock ticks unless both sides were immediate.
pub proof fn lemma_seed_join(m: nat, n: nat, a: Val, b: Val)
    ensures
        ({
            let s0 = seed(
                init_state(),
                Process::Join(
                    JoinProcess {
                        process_1: Box::new(pause_tower(m, a)),
                        process_2: Box::new(pause_tower(n, b)),
                    },
                ),
            );
            &&& (m == 0 && n == 0 ==> finished(run(s0, 3)) && run(s0, 3).result == Some(
                Val::Pair(Box::new(a), Box::new(b)),
            ) && ticks(s0, 3) == 0)
            &&& (m == 0 && n >= 1 ==> run(s0, 3) == single_state((n - 1) as nat, false, a, b)
                && ticks(s0, 3) == 1)
            &&& (m >= 1 && n == 0 ==> run(s0, 3) == single_state((m - 1) as nat, true, a, b)
                && ticks(s0, 3) == 1)
            &&& (m >= 1 && n >= 1 ==> run(s0, 3) == towers_state(
                (m - 1) as nat,
                (n - 1) as nat,
                true,
                a,
                b,
            ) && ticks(s0, 3) == 1)
        }),
{
    let s0 = seed(
        init_state(),
        Process::Join(
            JoinProcess {
                process_1: Box::new(pause_tower(m, a)),
                process_2: Box::new(pause_tower(n, b)),
            },
        ),
    );
    lemma_seed_join_first(m, n, a, b);
    lemma_seed_join_rest(m, n, a, b);
    assert(run(s0, 1) == seed_mid(m, n, a, b)) by {
        reveal_with_fuel(crate::semantics::run, 2);
    }
    crate::semantics::lemma_run_add(s0, 1, 2);
    lemma_ticks_add(s0, 1, 2);
    assert(ticks(s0, 1) == 0) by {
        reveal_with_fuel(ticks, 2);
    }
}

/// A submitted join of an `m`-pause tower producing `a` with an `n`-pause
/// tower producing `b` finishes with the pair `(a, b)` after
/// `tower_steps(m, n)` machine steps, of which exactly `max(m, n)` are
/// clock ticks: it completes in `max(m, n) + 1` instants.
pub proof fn lemma_join_towers(m: nat, n: nat, a: Val, b: Val)
    ensures
        ({
            let s0 = seed(
                init_state(),
                Process::Join(
                    JoinProcess {
                        process_1: Box::new(pause_tower(m, a)),
                        process_2: Box::new(pause_tower(n, b)),
                    },
                ),
            );
            let steps = tower_steps(m, n);
            finished(run(s0, steps)) && run(s0, steps).result == Some(
                Val::Pair(Box::new(a), Box::new(b)),
            ) && ticks(s0, steps) == max_nat(m, n)
        }),
{
    let s0 = seed(
        init_state(),
        Process::Join(
            JoinProcess {
                process_1: Box::new(pause_tower(m, a)),
                process_2: Box::new(pause_tower(n, b)),
            },
        ),
    );
    lemma_seed_join(m, n, a, b);
    if m == 0 && n == 0 {
    } else if m == 0 {
        lemma_single_side((n - 1) as nat, false, a, b);
        crate::semantics::lemma_run_add(s0, 3, 2 * (n - 1) as nat + 2);
        lemma_ticks_add(s0, 3, 2 * (n - 1) as nat + 2);
    } else if n == 0 {
        lemma_single_side((m - 1) as nat, true, a, b);
        crate::semantics::lemma_run_add(s0, 3, 2 * (m - 1) as nat + 2);
        lemma_ticks_add(s0, 3, 2 * (m - 1) as nat + 2);
    } else {
        lemma_tower_join((m - 1) as nat, (n - 1) as nat, true, a, b);
        crate::semantics::lemma_run_add(s0, 3, tower_steps((m - 1) as nat, (n - 1) as nat));
        lemma_ticks_add(s0, 3, tower_steps((m - 1) as nat, (n - 1) as nat));
    }
}

/// Join commutativity, value-wise: for pure processes — an `m`-pause tower
/// producing `a` and an `n`-pause tower producing `b` — the join delivers
/// `(a, b)` and the swapped join delivers `(b, a)`; both need the same
/// number of machine steps and the same `max(m, n)` clock ticks, so neither
/// order costs an instant beyond the slower side.
pub proof fn law_join_commutative(m: nat, n: nat, a: Val, b: Val, fuel: u64)
    requires
        fuel >= tower_steps(m, n),
    ensures
        execute_result(
            seed(
                init_state(),
                Process::Join(
                    JoinProcess {
                        process_1: Box::new(pause_tower(m, a)),
                        process_2: Box::new(pause_tower(n, b)),
                    },
                ),
            ),
            fuel as nat,
        ).result == Some(Val::Pair(Box::new(a), Box::new(b))),
        execute_result(
            seed(
                init_state(),
                Process::Join(
                    JoinProcess {
                        process_1: Box::new(pause_tower(n, b)),
                        process_2: Box::new(pause_tower(m, a)),
                    },
                ),
            ),
            fuel as nat,
        ).result == Some(Val::Pair(Box::new(b), Box::new(a))),
        tower_steps(m, n) == tower_steps(n, m),
        ticks(
            seed(
                init_state(),
                Process::Join(
                    JoinProcess {
                        process_1: Box::new(pause_tower(m, a)),
                        process_2: Box::new(pause_tower(n, b)),
                    },
                ),
            ),
            tower_steps(m, n),
        ) == max_nat(m, n),
        ticks(
            seed(
                init_state(),
                Process::Join(
                    JoinProcess {
                        process_1: Box::new(pause_tower(n, b)),
                        process_2: Box::new(pause_tower(m, a)),
                    },
                ),
            ),
            tower_steps(n, m),
        ) == max_nat(m, n),
{
    lemma_tower_steps_symmetric(m, n);
    lemma_join_towers(m, n, a, b);
    lemma_join_towers(n, m, b, a);
    let sa = seed(
        init_state(),
        Process::Join(
            JoinProcess {
                process_1: Box::new(pause_tower(m, a)),
                process_2: Box::new(pause_tower(n, b)),
            },
        ),
    );
    let sb = seed(
        init_state(),
        Process::Join(
            JoinProcess {
                process_1: Box::new(pause_tower(n, b)),
                process_2: Box::new(pause_tower(m, a)),
            },
        ),
    );
    crate::semantics::lemma_run_stable(sa, tower_steps(m, n), fuel as nat);
    crate::semantics::lemma_run_stable(sb, tower_steps(n, m), fuel as nat);
}

/// Absent exclusion, as a state invariant: a signal that is present in the
/// current instant has an empty absent queue.  Since `emit` purges the
/// absent queue and a registration on a present signal is dropped, no
/// absent-reaction registered during an instant in which the signal was
/// emitted survives the instant — so none can fire in the following one.
pub open spec fn absent_exclusion(s: MState) -> bool {
    forall|i: int|
        0 <= i < s.signals.len() ==> ((#[trigger] s.signals[i]).emitted
            ==> s.signals[i].later_on_absent.len() == 0)
}

/// A fresh machine excludes absent-reactions trivially.
pub proof fn lemma_absent_exclusion_init()
    ensures
        absent_exclusion(init_state()),
{
}

/// One dispatch preserves absent exclusion.
pub proof fn lemma_run_task_absent_exclusion(s: MState, t: Task)
    requires
        absent_exclusion(s),
    ensures
        absent_exclusion(crate::semantics::run_task(s, t)),
    decreases crate::semantics::task_size(t),
{
    if s.stuck {
    } else {
        match t {
            Task::Call(p, k) => match p {
                Process::Value(vp) => {
                    lemma_run_task_absent_exclusion(s, Task::Resume(k, vp.value));
                },
                Process::Pause(pp) => {
                    lemma_run_task_absent_exclusion(
                        s,
                        Task::Call(
                            *pp.process,
                            Continuation::Pause(
                                crate::continuations::Pause { next: Box::new(k) },
                            ),
                        ),
                    );
                },
                Process::Mapped(mp) => {
                    lemma_run_task_absent_exclusion(
                        s,
                        Task::Call(
                            *mp.process,
                            Continuation::Mapped(
                                crate::continuations::Mapped {
                                    function: mp.function,
                                    next: Box::new(k),
                                },
                            ),
                        ),
                    );
                },
                Process::Flatten(fp) => {
                    lemma_run_task_absent_exclusion(
                        s,
                        Task::Call(*fp.process, Continuation::Flatten(Box::new(k))),
                    );
                },
                Process::Join(jp) => {
                    let j = #[verifier::truncate] (s.joins.len() as usize);
                    let s1 = MState {
                        joins: s.joins.push(
                            crate::runtime::JoinCell { left: None, right: None, next: Some(k) },
                        ),
                        ..s
                    };
                    let s2 = crate::semantics::push_current(
                        s1,
                        Task::Call(*jp.process_2, Continuation::JoinRight(j)),
                    );
                    lemma_run_task_absent_exclusion(
                        s2,
                        Task::Call(*jp.process_1, Continuation::JoinLeft(j)),
                    );
                },
                Process::While(_) => {},
                Process::Emit(e) => {
                    lemma_run_task_absent_exclusion(
                        crate::semantics::emit_spec(s, e.signal.signal_index, e.value),
                        Task::Resume(k, Val::Unit),
                    );
                },
                Process::Await(_) => {},
                Process::AwaitImmediate(_) => {},
                Process::Present(_) => {},
            },
            Task::Resume(k, v) => match k {
                Continuation::Done => {},
                Continuation::Store => {},
                Continuation::Mapped(m) => {
                    let (r, cs) = crate::values::apply_spec(m.function, v, s.cells);
                    crate::values::lemma_apply_size(m.function, v, s.cells);
                    match r {
                        Some(v2) => {
                            lemma_run_task_absent_exclusion(
                                MState { cells: cs, ..s },
                                Task::Resume(*m.next, v2),
                            );
                        },
                        None => {},
                    }
                },
                Continuation::Pause(_) => {},
                Continuation::Flatten(next) => match v {
                    Val::Proc(p) => {
                        lemma_run_task_absent_exclusion(s, Task::Call(*p, *next));
                    },
                    _ => {},
                },
                Continuation::JoinLeft(_) => {},
                Continuation::JoinRight(_) => {},
                Continuation::Loop(body, next) => match v {
                    Val::Status(LoopStatus::Continue) => {},
                    Val::Status(LoopStatus::Exit(x)) => {
                        assert(crate::values::val_size(Val::Status(LoopStatus::Exit(x))) == 2
                            + crate::values::val_size(*x)) by {
                            assert(crate::values::status_size(LoopStatus::Exit(x)) == 1
                                + crate::values::val_size(*x));
                        }
                        lemma_run_task_absent_exclusion(s, Task::Resume(*next, *x));
                    },
                    _ => {},
                },
                Continuation::DeliverPrevious(_, _) => {},
                Continuation::PresentIf(_) => {},
                Continuation::PresentElse(_) => {},
                Continuation::FlushAbsent(_) => {},
                Continuation::ResetSignal(_) => {},
            },
        }
    }
}

/// Absent exclusion holds along every run of the machine.
pub proof fn law_absent_exclusion(s: MState, n: nat)
    requires
        absent_exclusion(s),
    ensures
        absent_exclusion(run(s, n)),
    decreases n,
{
    if n > 0 {
        let s1 = step(s);
        if !s.stuck && s.current.len() > 0 {
            lemma_run_task_absent_exclusion(
                MState { current: s.current.drop_last(), ..s },
                s.current.last(),
            );
        } else if !s.stuck && s.end_of_instant.len() > 0 {
            lemma_run_task_absent_exclusion(
                MState { end_of_instant: s.end_of_instant.drop_last(), ..s },
                s.end_of_instant.last(),
            );
        }
        law_absent_exclusion(s1, (n - 1) as nat);
    }
}

/// The signal-state invariants of the protocol, holding of every reachable
/// machine: a signal that is not present holds its gather neutral in the
/// accumulator (so the first emission of an instant is gathered into the
/// default); a present signal has no pending absent flusher (its guard was
/// cleared by the emission); and a present signal's presence queues are
/// empty (emission released them, and later registrations are dispatched
/// directly).
pub open spec fn signal_state_invariant(s: MState) -> bool {
    forall|i: int|
        0 <= i < s.signals.len() ==> {
            let sig = #[trigger] s.signals[i];
            &&& (!sig.emitted ==> sig.current_value == sig.default_value)
            &&& (sig.emitted ==> !sig.absent_registered)
            &&& (sig.emitted ==> sig.on_present.len() == 0 && sig.later_on_present.len()
                == 0)
        }
}

/// A fresh machine satisfies the signal-state invariants trivially.
pub proof fn lemma_signal_state_invariant_init()
    ensures
        signal_state_invariant(init_state()),
{
}

/// One dispatch preserves the signal-state invariants.
pub proof fn lemma_run_task_signal_invariant(s: MState, t: Task)
    requires
        signal_state_invariant(s),
    ensures
        signal_state_invariant(crate::semantics::run_task(s, t)),
    decreases crate::semantics::task_size(t),
{
    if s.stuck {
    } else {
        match t {
            Task::Call(p, k) => match p {
                Process::Value(vp) => {
                    lemma_run_task_signal_invariant(s, Task::Resume(k, vp.value));
                },
                Process::Pause(pp) => {
                    lemma_run_task_signal_invariant(
                        s,
                        Task::Call(
                            *pp.process,
                            Continuation::Pause(
                                crate::continuations::Pause { next: Box::new(k) },
                            ),
                        ),
                    );
                },
                Process::Mapped(mp) => {
                    lemma_run_task_signal_invariant(
                        s,
                        Task::Call(
                            *mp.process,
                            Continuation::Mapped(
                                crate::continuations::Mapped {
                                    function: mp.function,
                                    next: Box::new(k),
                                },
                            ),
                        ),
                    );
                },
                Process::Flatten(fp) => {
                    lemma_run_task_signal_invariant(
                        s,
                        Task::Call(*fp.process, Continuation::Flatten(Box::new(k))),
                    );
                },
                Process::Join(jp) => {
                    let j = #[verifier::truncate] (s.joins.len() as usize);
                    let s1 = MState {
                        joins: s.joins.push(
                            crate::runtime::JoinCell { left: None, right: None, next: Some(k) },
                        ),
                        ..s
                    };
                    let s2 = crate::semantics::push_current(
                        s1,
                        Task::Call(*jp.process_2, Continuation::JoinRight(j)),
                    );
                    lemma_run_task_signal_invariant(
                        s2,
                        Task::Call(*jp.process_1, Continuation::JoinLeft(j)),
                    );
                },
                Process::While(_) => {},
                Process::Emit(e) => {
                    lemma_run_task_signal_invariant(
                        crate::semantics::emit_spec(s, e.signal.signal_index, e.value),
                        Task::Resume(k, Val::Unit),
                    );
                },
                Process::Await(_) => {},
                Process::AwaitImmediate(_) => {},
                Process::Present(_) => {},
            },
            Task::Resume(k, v) => match k {
                Continuation::Done => {},
                Continuation::Store => {},
                Continuation::Mapped(m) => {
                    let (r, cs) = crate::values::apply_spec(m.function, v, s.cells);
                    crate::values::lemma_apply_size(m.function, v, s.cells);
                    match r {
                        Some(v2) => {
                            lemma_run_task_signal_invariant(
                                MState { cells: cs, ..s },
                                Task::Resume(*m.next, v2),
                            );
                        },
                        None => {},
                    }
                },
                Continuation::Pause(_) => {},
                Continuation::Flatten(next) => match v {
                    Val::Proc(p) => {
                        lemma_run_task_signal_invariant(s, Task::Call(*p, *next));
                    },
                    _ => {},
                },
                Continuation::JoinLeft(_) => {},
                Continuation::JoinRight(_) => {},
                Continuation::Loop(body, next) => match v {
                    Val::Status(LoopStatus::Continue) => {},
                    Val::Status(LoopStatus::Exit(x)) => {
                        assert(crate::values::val_size(Val::Status(LoopStatus::Exit(x))) == 2
                            + crate::values::val_size(*x)) by {
                            assert(crate::values::status_size(LoopStatus::Exit(x)) == 1
                                + crate::values::val_size(*x));
                        }
                        lemma_run_task_signal_invariant(s, Task::Resume(*next, *x));
                    },
                    _ => {},
                },
                Continuation::DeliverPrevious(_, _) => {},
                Continuation::PresentIf(_) => {},
                Continuation::PresentElse(_) => {},
                Continuation::FlushAbsent(_) => {},
                Continuation::ResetSignal(_) => {},
            },
        }
    }
}

/// The signal-state invariants hold along every run of the machine.
pub proof fn law_signal_state_invariant(s: MState, n: nat)
    requires
        signal_state_invariant(s),
    ensures
        signal_state_invariant(run(s, n)),
    decreases n,
{
    if n > 0 {
        let s1 = step(s);
        if !s.stuck && s.current.len() > 0 {
            lemma_run_task_signal_invariant(
                MState { current: s.current.drop_last(), ..s },
                s.current.last(),
            );
        } else if !s.stuck && s.end_of_instant.len() > 0 {
            lemma_run_task_signal_invariant(
                MState { end_of_instant: s.end_of_instant.drop_last(), ..s },
                s.end_of_instant.last(),
            );
        }
        law_signal_state_invariant(s1, (n - 1) as nat);
    }
}

/// On a reachable machine, the first emission of an instant is gathered
/// into the signal's default: what the present instant's observers will be
/// handed next instant is `gather(e, default)` for the instant's first
/// emitted value `e` — every later same-instant emission is a no-op.
pub proof fn lemma_emit_gathers_from_default(s: MState, i: usize, e: Val)
    requires
        signal_state_invariant(s),
        crate::semantics::valid_signal(s, i),
        !s.signals[i as int].emitted,
    ensures
        ({
            let gathered = crate::values::gather_spec(
                s.signals[i as int].gather,
                e,
                s.signals[i as int].default_value,
            );
            &&& (gathered is Some ==> crate::semantics::emit_spec(
                s,
                i,
                e,
            ).signals[i as int].current_value == gathered->Some_0)
            &&& (gathered is None ==> crate::semantics::emit_spec(s, i, e)
                == crate::semantics::halt(s))
        }),
{
    assert(s.signals[i as int].current_value == s.signals[i as int].default_value);
}

/// How the one-shot cells may change between two states: cells are only
/// added, and a stored continuation is either still in place or consumed —
/// never replaced.  Once consumed it stays consumed, so the continuation a
/// `join` or `present` keeps is dispatched at most once; and a task taken
/// from a pool is removed from it in the same step, so no pooled
/// continuation is dispatched twice either.
pub open spec fn one_shot_evolution(s0: MState, s1: MState) -> bool {
    s0.joins.len() <= s1.joins.len() && s0.presents.len() <= s1.presents.len() && (forall|
        j: int,
    |
        0 <= j < s0.joins.len() ==> ((#[trigger] s1.joins[j]).next == s0.joins[j].next
            || s1.joins[j].next is None)) && (forall|c: int|
        0 <= c < s0.presents.len() ==> ((#[trigger] s1.presents[c]).next == s0.presents[c].next
            || s1.presents[c].next is None))
}

/// One-shot evolution composes.
pub proof fn lemma_one_shot_trans(s0: MState, s1: MState, s2: MState)
    requires
        one_shot_evolution(s0, s1),
        one_shot_evolution(s1, s2),
    ensures
        one_shot_evolution(s0, s2),
{
}

/// At-most-once dispatch: one task's dispatch only ever consumes the
/// continuations stored in join and presence cells, never restores or
/// replaces them.
pub proof fn lemma_run_task_one_shot(s: MState, t: Task)
    ensures
        one_shot_evolution(s, crate::semantics::run_task(s, t)),
    decreases crate::semantics::task_size(t),
{
    if s.stuck {
    } else {
        match t {
            Task::Call(p, k) => match p {
                Process::Value(vp) => {
                    lemma_run_task_one_shot(s, Task::Resume(k, vp.value));
                },
                Process::Pause(pp) => {
                    lemma_run_task_one_shot(
                        s,
                        Task::Call(
                            *pp.process,
                            Continuation::Pause(
                                crate::continuations::Pause { next: Box::new(k) },
                            ),
                        ),
                    );
                },
                Process::Mapped(mp) => {
                    lemma_run_task_one_shot(
                        s,
                        Task::Call(
                            *mp.process,
                            Continuation::Mapped(
                                crate::continuations::Mapped {
                                    function: mp.function,
                                    next: Box::new(k),
                                },
                            ),
                        ),
                    );
                },
                Process::Flatten(fp) => {
                    lemma_run_task_one_shot(
                        s,
                        Task::Call(*fp.process, Continuation::Flatten(Box::new(k))),
                    );
                },
                Process::Join(jp) => {
                    let j = #[verifier::truncate] (s.joins.len() as usize);
                    let s1 = MState {
                        joins: s.joins.push(
                            crate::runtime::JoinCell { left: None, right: None, next: Some(k) },
                        ),
                        ..s
                    };
                    let s2 = crate::semantics::push_current(
                        s1,
                        Task::Call(*jp.process_2, Continuation::JoinRight(j)),
                    );
                    assert(one_shot_evolution(s, s2));
                    lemma_run_task_one_shot(
                        s2,
                        Task::Call(*jp.process_1, Continuation::JoinLeft(j)),
                    );
                    lemma_one_shot_trans(
                        s,
                        s2,
                        crate::semantics::run_task(
                            s2,
                            Task::Call(*jp.process_1, Continuation::JoinLeft(j)),
                        ),
                    );
                },
                Process::While(_) => {},
                Process::Emit(e) => {
                    let s1 = crate::semantics::emit_spec(s, e.signal.signal_index, e.value);
                    assert(one_shot_evolution(s, s1));
                    lemma_run_task_one_shot(s1, Task::Resume(k, Val::Unit));
                    lemma_one_shot_trans(
                        s,
                        s1,
                        crate::semantics::run_task(s1, Task::Resume(k, Val::Unit)),
                    );
                },
                Process::Await(_) => {},
                Process::AwaitImmediate(_) => {},
                Process::Present(_) => {},
            },
            Task::Resume(k, v) => match k {
                Continuation::Done => {},
                Continuation::Store => {},
                Continuation::Mapped(m) => {
                    let (r, cs) = crate::values::apply_spec(m.function, v, s.cells);
                    crate::values::lemma_apply_size(m.function, v, s.cells);
                    match r {
                        Some(v2) => {
                            lemma_run_task_one_shot(
                                MState { cells: cs, ..s },
                                Task::Resume(*m.next, v2),
                            );
                        },
                        None => {},
                    }
                },
                Continuation::Pause(_) => {},
                Continuation::Flatten(next) => match v {
                    Val::Proc(p) => {
                        lemma_run_task_one_shot(s, Task::Call(*p, *next));
                    },
                    _ => {},
                },
                Continuation::JoinLeft(_) => {},
                Continuation::JoinRight(_) => {},
                Continuation::Loop(body, next) => match v {
                    Val::Status(LoopStatus::Continue) => {},
                    Val::Status(LoopStatus::Exit(x)) => {
                        assert(crate::values::val_size(Val::Status(LoopStatus::Exit(x))) == 2
                            + crate::values::val_size(*x)) by {
                            assert(crate::values::status_size(LoopStatus::Exit(x)) == 1
                                + crate::values::val_size(*x));
                        }
                        lemma_run_task_one_shot(s, Task::Resume(*next, *x));
                    },
                    _ => {},
                },
                Continuation::DeliverPrevious(_, _) => {},
                Continuation::PresentIf(_) => {},
                Continuation::PresentElse(_) => {},
                Continuation::FlushAbsent(_) => {},
                Continuation::ResetSignal(_) => {},
            },
        }
    }
}

/// At-most-once dispatch holds along every run of the machine: a one-shot
/// continuation, once consumed, is never restored.
pub proof fn law_at_most_once_dispatch(s: MState, n: nat)
    ensures
        one_shot_evolution(s, run(s, n)),
    decreases n,
{
    if n > 0 {
        let s1 = step(s);
        if !s.stuck && s.current.len() > 0 {
            lemma_run_task_one_shot(
                MState { current: s.current.drop_last(), ..s },
                s.current.last(),
            );
        } else if !s.stuck && s.end_of_instant.len() > 0 {
            lemma_run_task_one_shot(
                MState { end_of_instant: s.end_of_instant.drop_last(), ..s },
                s.end_of_instant.last(),
            );
        }
        law_at_most_once_dispatch(s1, (n - 1) as nat);
        lemma_one_shot_trans(s, s1, run(s1, (n - 1) as nat));
        assert(run(s, n) == run(s1, (n - 1) as nat));
    }
}

/// No end-of-instant reset hides in this continuation's spine.  The runtime
/// schedules resets only on the end-of-instant pool; every continuation a
/// program builds satisfies this.
pub open spec fn cont_untimed(k: Continuation) -> bool
    decreases k,
{
    match k {
        Continuation::ResetSignal(_) => false,
        Continuation::Mapped(m) => cont_untimed(*m.next),
        Continuation::Pause(p) => cont_untimed(*p.next),
        Continuation::Flatten(next) => cont_untimed(*next),
        Continuation::Loop(_, next) => cont_untimed(*next),
        Continuation::DeliverPrevious(_, next) => cont_untimed(*next),
        _ => true,
    }
}

/// No end-of-instant reset hides in the given task.
pub open spec fn task_untimed(t: Task) -> bool {
    match t {
        Task::Call(_, k) => cont_untimed(k),
        Task::Resume(k, _) => cont_untimed(k),
    }
}

/// No end-of-instant reset waits in this signal's queues.
pub open spec fn signal_untimed(sig: crate::semantics::SignalModel) -> bool {
    (forall|i: int|
        0 <= i < sig.on_present.len() ==> cont_untimed(#[trigger] sig.on_present[i]))
        && (forall|i: int|
        0 <= i < sig.later_on_present.len() ==> cont_untimed(
            #[trigger] sig.later_on_present[i],
        )) && (forall|i: int|
        0 <= i < sig.later_on_absent.len() ==> cont_untimed(
            #[trigger] sig.later_on_absent[i],
        ))
}

/// Every reset in the machine sits directly on the end-of-instant pool:
/// none hides in the current or next pool, in a signal queue, or in a join
/// or presence cell.  This holds of every machine driven through the public
/// operations, since programs cannot even spell a reset except through
/// `Continuation::ResetSignal` itself.
pub open spec fn state_untimed(s: MState) -> bool {
    (forall|i: int| 0 <= i < s.current.len() ==> task_untimed(#[trigger] s.current[i]))
        && (forall|i: int| 0 <= i < s.next.len() ==> task_untimed(#[trigger] s.next[i])) && (
    forall|i: int| 0 <= i < s.signals.len() ==> signal_untimed(#[trigger] s.signals[i])) && (
    forall|j: int|
        0 <= j < s.joins.len() ==> match (#[trigger] s.joins[j]).next {
            Some(k) => cont_untimed(k),
            None => true,
        }) && (forall|c: int|
        0 <= c < s.presents.len() ==> match (#[trigger] s.presents[c]).next {
            Some(k) => cont_untimed(k),
            None => true,
        })
}

/// One dispatch of a reset-free task in a reset-free state leaves the state
/// reset-free and every signal's previous value untouched.
pub proof fn lemma_run_task_atomic(s: MState, t: Task)
    requires
        state_untimed(s),
        task_untimed(t),
    ensures
        state_untimed(crate::semantics::run_task(s, t)),
        crate::semantics::run_task(s, t).signals.len() == s.signals.len(),
        forall|i: int|
            0 <= i < s.signals.len() ==> #[trigger] crate::semantics::run_task(
                s,
                t,
            ).signals[i].previous_value == s.signals[i].previous_value,
        forall|i: int|
            0 <= i < s.signals.len() && s.signals[i].emitted ==> (
            #[trigger] crate::semantics::run_task(s, t).signals[i]).emitted
                && crate::semantics::run_task(s, t).signals[i].current_value
                == s.signals[i].current_value,
    decreases crate::semantics::task_size(t),
{
    if s.stuck {
    } else {
        match t {
            Task::Call(p, k) => match p {
                Process::Value(vp) => {
                    lemma_run_task_atomic(s, Task::Resume(k, vp.value));
                },
                Process::Pause(pp) => {
                    lemma_run_task_atomic(
                        s,
                        Task::Call(
                            *pp.process,
                            Continuation::Pause(
                                crate::continuations::Pause { next: Box::new(k) },
                            ),
                        ),
                    );
                },
                Process::Mapped(mp) => {
                    lemma_run_task_atomic(
                        s,
                        Task::Call(
                            *mp.process,
                            Continuation::Mapped(
                                crate::continuations::Mapped {
                                    function: mp.function,
                                    next: Box::new(k),
                                },
                            ),
                        ),
                    );
                },
                Process::Flatten(fp) => {
                    lemma_run_task_atomic(
                        s,
                        Task::Call(*fp.process, Continuation::Flatten(Box::new(k))),
                    );
                },
                Process::Join(jp) => {
                    let j = #[verifier::truncate] (s.joins.len() as usize);
                    let s1 = MState {
                        joins: s.joins.push(
                            crate::runtime::JoinCell { left: None, right: None, next: Some(k) },
                        ),
                        ..s
                    };
                    let s2 = crate::semantics::push_current(
                        s1,
                        Task::Call(*jp.process_2, Continuation::JoinRight(j)),
                    );
                    assert(state_untimed(s2));
                    lemma_run_task_atomic(
                        s2,
                        Task::Call(*jp.process_1, Continuation::JoinLeft(j)),
                    );
                },
                Process::While(_) => {},
                Process::Emit(e) => {
                    lemma_emit_atomic(s, e.signal.signal_index, e.value);
                    lemma_run_task_atomic(
                        crate::semantics::emit_spec(s, e.signal.signal_index, e.value),
                        Task::Resume(k, Val::Unit),
                    );
                },
                Process::Await(_) => {},
                Process::AwaitImmediate(_) => {},
                Process::Present(_) => {},
            },
            Task::Resume(k, v) => match k {
                Continuation::Done => {},
                Continuation::Store => {},
                Continuation::Mapped(m) => {
                    let (r, cs) = crate::values::apply_spec(m.function, v, s.cells);
                    crate::values::lemma_apply_size(m.function, v, s.cells);
                    match r {
                        Some(v2) => {
                            lemma_run_task_atomic(
                                MState { cells: cs, ..s },
                                Task::Resume(*m.next, v2),
                            );
                        },
                        None => {},
                    }
                },
                Continuation::Pause(_) => {},
                Continuation::Flatten(next) => match v {
                    Val::Proc(p) => {
                        lemma_run_task_atomic(s, Task::Call(*p, *next));
                    },
                    _ => {},
                },
                Continuation::JoinLeft(_) => {},
                Continuation::JoinRight(_) => {},
                Continuation::Loop(body, next) => match v {
                    Val::Status(LoopStatus::Continue) => {},
                    Val::Status(LoopStatus::Exit(x)) => {
                        assert(crate::values::val_size(Val::Status(LoopStatus::Exit(x))) == 2
                            + crate::values::val_size(*x)) by {
                            assert(crate::values::status_size(LoopStatus::Exit(x)) == 1
                                + crate::values::val_size(*x));
                        }
                        lemma_run_task_atomic(s, Task::Resume(*next, *x));
                    },
                    _ => {},
                },
                Continuation::DeliverPrevious(_, _) => {},
                Continuation::PresentIf(_) => {},
                Continuation::PresentElse(_) => {},
                Continuation::FlushAbsent(i) => {
                    lemma_flush_atomic(s, i);
                },
                Continuation::ResetSignal(_) => {
                    assert(false);
                },
            },
        }
    }
}

/// Emission leaves the state reset-free and every previous value untouched.
proof fn lemma_emit_atomic(s: MState, i: usize, e: Val)
    requires
        state_untimed(s),
    ensures
        state_untimed(crate::semantics::emit_spec(s, i, e)),
        crate::semantics::emit_spec(s, i, e).signals.len() == s.signals.len(),
        forall|j: int|
            0 <= j < s.signals.len() ==> #[trigger] crate::semantics::emit_spec(
                s,
                i,
                e,
            ).signals[j].previous_value == s.signals[j].previous_value,
        forall|j: int|
            0 <= j < s.signals.len() && s.signals[j].emitted ==> (
            #[trigger] crate::semantics::emit_spec(s, i, e).signals[j]).emitted
                && crate::semantics::emit_spec(s, i, e).signals[j].current_value
                == s.signals[j].current_value,
{
    if crate::semantics::valid_signal(s, i) {
        let sig = s.signals[i as int];
        if !sig.emitted {
            match crate::values::gather_spec(sig.gather, e, sig.current_value) {
                None => {},
                Some(gv) => {
                    let s2 = crate::semantics::emit_spec(s, i, e);
                    assert forall|m: int| 0 <= m < s2.current.len() implies task_untimed(
                        #[trigger] s2.current[m],
                    ) by {
                        if m >= s.current.len() {
                            assert(s2.current[m] == Task::Resume(
                                sig.on_present[m - s.current.len()],
                                Val::Unit,
                            ));
                        }
                    }
                    assert forall|m: int| 0 <= m < s2.next.len() implies task_untimed(
                        #[trigger] s2.next[m],
                    ) by {
                        if m >= s.next.len() {
                            assert(s2.next[m] == Task::Resume(
                                Continuation::DeliverPrevious(
                                    i,
                                    Box::new(sig.later_on_present[m - s.next.len()]),
                                ),
                                Val::Unit,
                            ));
                        }
                    }
                },
            }
        }
    }
}

/// The absent flusher leaves the state reset-free and every previous value
/// untouched.
proof fn lemma_flush_atomic(s: MState, i: usize)
    requires
        state_untimed(s),
    ensures
        state_untimed(crate::semantics::flush_absent_spec(s, i)),
        crate::semantics::flush_absent_spec(s, i).signals.len() == s.signals.len(),
        forall|j: int|
            0 <= j < s.signals.len() ==> #[trigger] crate::semantics::flush_absent_spec(
                s,
                i,
            ).signals[j].previous_value == s.signals[j].previous_value,
        forall|j: int|
            0 <= j < s.signals.len() && s.signals[j].emitted ==> (
            #[trigger] crate::semantics::flush_absent_spec(s, i).signals[j]).emitted
                && crate::semantics::flush_absent_spec(s, i).signals[j].current_value
                == s.signals[j].current_value,
{
    if crate::semantics::valid_signal(s, i) {
        let sig = s.signals[i as int];
        if sig.absent_registered {
            let s2 = crate::semantics::flush_absent_spec(s, i);
            assert forall|m: int| 0 <= m < s2.next.len() implies task_untimed(
                #[trigger] s2.next[m],
            ) by {
                if m >= s.next.len() {
                    assert(s2.next[m] == Task::Resume(
                        sig.later_on_absent[m - s.next.len()],
                        Val::Unit,
                    ));
                }
            }
        }
    }
}

/// Instant atomicity: through the current phase of an instant — as long as
/// current-instant tasks remain — no signal's previous value changes, a
/// present signal stays present, and its gathered value stays what the
/// instant's first emission made it, since the resets that move the
/// gathered value run only in the end-of-instant phase.  Every observer
/// that is handed a signal's gathered value within one instant (each
/// `DeliverPrevious` dispatch reads `previous_value` at that moment)
/// therefore receives the same value.
pub proof fn law_instant_atomicity(s: MState, n: nat)
    requires
        state_untimed(s),
        forall|m: nat| m < n ==> (#[trigger] crate::semantics::drain(s, m)).current.len() > 0,
    ensures
        state_untimed(crate::semantics::drain(s, n)),
        crate::semantics::drain(s, n).signals.len() == s.signals.len(),
        forall|i: int|
            0 <= i < s.signals.len() ==> #[trigger] crate::semantics::drain(
                s,
                n,
            ).signals[i].previous_value == s.signals[i].previous_value,
        forall|i: int|
            0 <= i < s.signals.len() && s.signals[i].emitted ==> (
            #[trigger] crate::semantics::drain(s, n).signals[i]).emitted
                && crate::semantics::drain(s, n).signals[i].current_value
                == s.signals[i].current_value,
    decreases n,
{
    if n > 0 {
        assert(crate::semantics::drain(s, 0) == s);
        assert(s.current.len() > 0);
        let s1 = dispatch(s);
        if !s.stuck {
            assert(state_untimed(MState { current: s.current.drop_last(), ..s }));
            lemma_run_task_atomic(
                MState { current: s.current.drop_last(), ..s },
                s.current.last(),
            );
        }
        assert forall|m: nat| m < (n - 1) as nat implies (#[trigger] crate::semantics::drain(
            s1,
            m,
        )).current.len() > 0 by {
            assert(crate::semantics::drain(s, m + 1) == crate::semantics::drain(s1, m));
        }
        law_instant_atomicity(s1, (n - 1) as nat);
        assert(crate::semantics::drain(s, n) == crate::semantics::drain(s1, (n - 1) as nat));
    }
}

/// Observer agreement, assembled from instant atomicity: observers handed
/// signal `i`'s gathered value at any two points of one instant's current
/// phase — every `DeliverPrevious` dispatch reads `previous_value` at its
/// own moment — receive the same value; by the emission contract and
/// `lemma_emit_gathers_from_default`, on a reachable machine that value is
/// the instant's first emission gathered into the default.
pub proof fn law_observers_agree(s: MState, n1: nat, n2: nat, i: int)
    requires
        state_untimed(s),
        forall|m: nat| m < n1 ==> (#[trigger] crate::semantics::drain(s, m)).current.len() > 0,
        forall|m: nat| m < n2 ==> (#[trigger] crate::semantics::drain(s, m)).current.len() > 0,
        0 <= i < s.signals.len(),
    ensures
        crate::semantics::drain(s, n1).signals[i].previous_value == crate::semantics::drain(
            s,
            n2,
        ).signals[i].previous_value,
{
    law_instant_atomicity(s, n1);
    law_instant_atomicity(s, n2);
}

} // verus!