//! Values flowing through processes and continuations, and the first-order
//! function algebra mapped over them.
//!
//! The runtime is an interpreter: a value is plain data, and the functions a
//! program maps over its values are drawn from a small closed algebra (`Fun`)
//! rather than from arbitrary closures, so that the whole execution can be
//! described by the mathematical model in `semantics`.  Shared mutable state
//! lives in the scheduler's numbered *cells* (see `runtime`); the cell
//! operations of `Fun` are the interpreter's counterpart of a closure
//! capturing a shared counter.

use vstd::prelude::*;

use crate::processes::LoopStatus;
use crate::processes::Process;
use crate::processes::proc_size;

verus! {

/// A runtime value: the unit value, a machine integer, a pair, a process
/// (the payload of `flatten`), a loop status, or a cons list (the payload of
/// the collecting value signal).
#[derive(PartialEq, Debug)]
pub enum Val {
    Unit,
    Int(i64),
    Pair(Box<Val>, Box<Val>),
    Proc(Box<Process>),
    Status(LoopStatus),
    Nil,
    Cons(Box<Val>, Box<Val>),
}

/// A first-order function of one value, used by `map` continuations and
/// processes.
///
/// `CellGet`, `CellSet` and `CellAdd` read and write the scheduler's shared
/// cells; `CellSet` and `CellAdd` expect an integer argument and return the
/// unit value.  `ExitIfEq(n)` turns an integer into a `LoopStatus`: `Exit`
/// carrying the integer when it equals `n`, `Continue` otherwise.  Integer
/// arithmetic wraps around on overflow.
#[derive(PartialEq, Debug)]
pub enum Fun {
    Identity,
    ConstInt(i64),
    ConstProc(Box<Process>),
    AddConst(i64),
    MulConst(i64),
    SumPair,
    CellGet(usize),
    CellSet(usize),
    CellAdd(usize),
    ExitIfEq(i64),
}

/// A gather function folds one emitted value into a signal's accumulator.
///
/// `Replace` keeps the latest emission, `Add` sums integer emissions
/// (wrapping on overflow), and `Collect` conses each emission onto a list.
#[derive(Clone, Copy, PartialEq, Debug)]
pub enum GatherFun {
    Replace,
    Add,
    Collect,
}

/// Structural size of a value; the measure that bounds one scheduler
/// dispatch.
pub open spec fn val_size(v: Val) -> nat
    decreases v,
{
    match v {
        Val::Unit => 1,
        Val::Int(_) => 1,
        Val::Pair(a, b) => 1 + val_size(*a) + val_size(*b),
        Val::Proc(p) => 1 + proc_size(*p),
        Val::Status(ls) => 1 + status_size(ls),
        Val::Nil => 1,
        Val::Cons(h, t) => 1 + val_size(*h) + val_size(*t),
    }
}

/// Structural size of a loop status.
pub open spec fn status_size(ls: LoopStatus) -> nat
    decreases ls,
{
    match ls {
        LoopStatus::Continue => 1,
        LoopStatus::Exit(v) => 1 + val_size(*v),
    }
}

/// Structural size of a function; every node weighs at least two, so that
/// applying a function strictly shrinks a dispatch's measure.
pub open spec fn fun_size(f: Fun) -> nat
    decreases f,
{
    match f {
        Fun::ConstProc(p) => 2 + proc_size(*p),
        _ => 2,
    }
}

/// Copies a value.
pub fn clone_val(v: &Val) -> (r: Val)
    ensures
        r == *v,
    decreases val_size(*v),
{
    match v {
        Val::Unit => Val::Unit,
        Val::Int(n) => Val::Int(*n),
        Val::Pair(a, b) => Val::Pair(Box::new(clone_val(&**a)), Box::new(clone_val(&**b))),
        Val::Proc(p) => Val::Proc(Box::new(crate::processes::clone_process(&**p))),
        Val::Status(ls) => Val::Status(clone_status(ls)),
        Val::Nil => Val::Nil,
        Val::Cons(h, t) => Val::Cons(Box::new(clone_val(&**h)), Box::new(clone_val(&**t))),
    }
}

/// Copies a loop status.
pub fn clone_status(ls: &LoopStatus) -> (r: LoopStatus)
    ensures
        r == *ls,
    decreases status_size(*ls),
{
    match ls {
        LoopStatus::Continue => LoopStatus::Continue,
        LoopStatus::Exit(v) => LoopStatus::Exit(Box::new(clone_val(&**v))),
    }
}

/// Copies a function of the algebra.
pub fn clone_fun(f: &Fun) -> (r: Fun)
    ensures
        r == *f,
    decreases fun_size(*f),
{
    match f {
        Fun::Identity => Fun::Identity,
        Fun::ConstInt(n) => Fun::ConstInt(*n),
        Fun::ConstProc(p) => Fun::ConstProc(Box::new(crate::processes::clone_process(&**p))),
        Fun::AddConst(n) => Fun::AddConst(*n),
        Fun::MulConst(n) => Fun::MulConst(*n),
        Fun::SumPair => Fun::SumPair,
        Fun::CellGet(i) => Fun::CellGet(*i),
        Fun::CellSet(i) => Fun::CellSet(*i),
        Fun::CellAdd(i) => Fun::CellAdd(*i),
        Fun::ExitIfEq(n) => Fun::ExitIfEq(*n),
    }
}

/// What applying `f` to `v` with shared cells `cells` yields: the result
/// value (`None` on a type error or an out-of-range cell, which halts the
/// machine) and the new cell contents.
pub open spec fn apply_spec(f: Fun, v: Val, cells: Seq<i64>) -> (Option<Val>, Seq<i64>) {
    match f {
        Fun::Identity => (Some(v), cells),
        Fun::ConstInt(n) => (Some(Val::Int(n)), cells),
        Fun::ConstProc(p) => (Some(Val::Proc(p)), cells),
        Fun::AddConst(n) => match v {
            Val::Int(m) => (
                Some(Val::Int(vstd::wrapping::i64_specs::wrapping_add(m, n))),
                cells,
            ),
            _ => (None, cells),
        },
        Fun::MulConst(n) => match v {
            Val::Int(m) => (
                Some(Val::Int(vstd::wrapping::i64_specs::wrapping_mul(m, n))),
                cells,
            ),
            _ => (None, cells),
        },
        Fun::SumPair => match v {
            Val::Pair(a, b) => match (*a, *b) {
                (Val::Int(m), Val::Int(n)) => (
                    Some(Val::Int(vstd::wrapping::i64_specs::wrapping_add(m, n))),
                    cells,
                ),
                _ => (None, cells),
            },
            _ => (None, cells),
        },
        Fun::CellGet(i) => if i < cells.len() {
            (Some(Val::Int(cells[i as int])), cells)
        } else {
            (None, cells)
        },
        Fun::CellSet(i) => match v {
            Val::Int(m) => if i < cells.len() {
                (Some(Val::Unit), cells.update(i as int, m))
            } else {
                (None, cells)
            },
            _ => (None, cells),
        },
        Fun::CellAdd(i) => match v {
            Val::Int(m) => if i < cells.len() {
                (
                    Some(Val::Unit),
                    cells.update(
                        i as int,
                        vstd::wrapping::i64_specs::wrapping_add(cells[i as int], m),
                    ),
                )
            } else {
                (None, cells)
            },
            _ => (None, cells),
        },
        Fun::ExitIfEq(n) => match v {
            Val::Int(m) => if m == n {
                (Some(Val::Status(LoopStatus::Exit(Box::new(Val::Int(m))))), cells)
            } else {
                (Some(Val::Status(LoopStatus::Continue)), cells)
            },
            _ => (None, cells),
        },
    }
}

/// What folding the emission `e` into the accumulator `acc` with `g` yields;
/// `None` (halting the machine) when `Add` meets a non-integer.
pub open spec fn gather_spec(g: GatherFun, e: Val, acc: Val) -> Option<Val> {
    match g {
        GatherFun::Replace => Some(e),
        GatherFun::Add => match (e, acc) {
            (Val::Int(m), Val::Int(n)) => Some(
                Val::Int(vstd::wrapping::i64_specs::wrapping_add(n, m)),
            ),
            _ => None,
        },
        GatherFun::Collect => Some(Val::Cons(Box::new(e), Box::new(acc))),
    }
}

/// Applies a function of the algebra to a value, reading and writing the
/// shared cells.
pub fn apply(f: Fun, v: Val, cells: &mut Vec<i64>) -> (r: Option<Val>)
    ensures
        (r, final(cells)@) == apply_spec(f, v, old(cells)@),
{
    match f {
        Fun::Identity => Some(v),
        Fun::ConstInt(n) => Some(Val::Int(n)),
        Fun::ConstProc(p) => Some(Val::Proc(p)),
        Fun::AddConst(n) => match v {
            Val::Int(m) => Some(Val::Int(m.wrapping_add(n))),
            _ => None,
        },
        Fun::MulConst(n) => match v {
            Val::Int(m) => Some(Val::Int(m.wrapping_mul(n))),
            _ => None,
        },
        Fun::SumPair => match v {
            Val::Pair(a, b) => match (*a, *b) {
                (Val::Int(m), Val::Int(n)) => Some(Val::Int(m.wrapping_add(n))),
                _ => None,
            },
            _ => None,
        },
        Fun::CellGet(i) => if i < cells.len() {
            Some(Val::Int(cells[i]))
        } else {
            None
        },
        Fun::CellSet(i) => match v {
            Val::Int(m) => if i < cells.len() {
                cells.set(i, m);
                Some(Val::Unit)
            } else {
                None
            },
            _ => None,
        },
        Fun::CellAdd(i) => match v {
            Val::Int(m) => if i < cells.len() {
                let old_value = cells[i];
                cells.set(i, old_value.wrapping_add(m));
                Some(Val::Unit)
            } else {
                None
            },
            _ => None,
        },
        Fun::ExitIfEq(n) => match v {
            Val::Int(m) => if m == n {
                Some(Val::Status(LoopStatus::Exit(Box::new(Val::Int(m)))))
            } else {
                Some(Val::Status(LoopStatus::Continue))
            },
            _ => None,
        },
    }
}

/// Folds one emitted value into a signal's accumulator, leaving the
/// accumulator untouched (the caller replaces it on success).
pub fn gather(g: GatherFun, e: Val, acc: &Val) -> (r: Option<Val>)
    ensures
        r == gather_spec(g, e, *acc),
{
    match g {
        GatherFun::Replace => Some(e),
        GatherFun::Add => match (&e, acc) {
            (Val::Int(m), Val::Int(n)) => Some(Val::Int((*n).wrapping_add(*m))),
            _ => None,
        },
        GatherFun::Collect => Some(Val::Cons(Box::new(e), Box::new(clone_val(acc)))),
    }
}

/// The result of an application is no larger than the function and argument
/// together; this keeps a scheduler dispatch's measure decreasing.
pub proof fn lemma_apply_size(f: Fun, v: Val, cells: Seq<i64>)
    ensures
        apply_spec(f, v, cells).0 is Some ==> val_size(
            apply_spec(f, v, cells).0->Some_0,
        ) <= fun_size(f) + val_size(v),
{
    match f {
        Fun::ExitIfEq(n) => {
            match v {
                Val::Int(m) => {
                    if m == n {
                        assert(val_size(Val::Status(LoopStatus::Exit(Box::new(Val::Int(m)))))
                            == 3) by {
                            assert(status_size(LoopStatus::Exit(Box::new(Val::Int(m)))) == 2);
                        }
                    } else {
                        assert(val_size(Val::Status(LoopStatus::Continue)) == 2) by {
                            assert(status_size(LoopStatus::Continue) == 1);
                        }
                    }
                },
                _ => {},
            }
        },
        _ => {},
    }
}

} // verus!
