use reactrust::continuations::Continuation;
use reactrust::processes::LoopStatus;
use reactrust::processes::execute_process;
use reactrust::processes::value;
use reactrust::runtime::Runtime;
use reactrust::values::Fun;
use reactrust::values::Val;

const FUEL: u64 = 1_000_000;

#[test]
fn processes_wait_two_instants() {
    let mut runtime = Runtime::new();

    let flag = runtime.new_cell(0);

    let write_flag = Continuation::Done.map(Fun::CellSet(flag)).map(Fun::ConstInt(42));
    runtime.on_current_instant(write_flag.pause().pause());

    let mut work_remains = runtime.instant(FUEL);
    assert_eq!(runtime.cell_value(flag), 0);
    assert_eq!(work_remains, true);

    work_remains = runtime.instant(FUEL);
    assert_eq!(runtime.cell_value(flag), 0);
    assert_eq!(work_remains, true);

    work_remains = runtime.instant(FUEL);
    assert_eq!(runtime.cell_value(flag), 42);
    assert_eq!(work_remains, false);

    // There should not be any task left
    work_remains = runtime.instant(FUEL);
    assert_eq!(work_remains, false);
}

#[test]
fn map_to_multiply() {
    let process = value(Val::Int(21)).map(Fun::MulConst(2));
    let return_value = execute_process(process, FUEL);

    assert_eq!(Some(Val::Int(42)), return_value);
}

#[test]
fn map_and_pause_to_multiply() {
    let process = value(Val::Int(21)).pause().map(Fun::MulConst(2)).pause();

    let return_value = execute_process(process, FUEL);
    assert_eq!(Some(Val::Int(42)), return_value);
}

#[test]
fn join_sum_with_delay() {
    let immediate_process = value(Val::Int(10));
    let paused_process = value(Val::Int(32)).pause().pause().pause();

    let join_and_pause_process = immediate_process.join(paused_process).map(Fun::SumPair);

    let return_value = execute_process(join_and_pause_process, FUEL);
    assert_eq!(Some(Val::Int(42)), return_value);
}

#[test]
fn count_using_while() {
    let mut runtime = Runtime::new();
    let counter = runtime.new_cell(0);

    // Each iteration adds one to the counter; the loop exits once the
    // counter reaches 42.
    let sum = value(Val::Unit)
        .map(Fun::ConstInt(1))
        .map(Fun::CellAdd(counter))
        .map(Fun::CellGet(counter))
        .map(Fun::ExitIfEq(42))
        .while_loop();

    runtime.run_process(sum, FUEL);
    assert_eq!(42, runtime.cell_value(counter));
}

#[test]
fn map_completes_in_one_instant() {
    let mut runtime = Runtime::new();
    let out = runtime.new_cell(0);
    runtime.submit_process(
        value(Val::Int(21)).map(Fun::MulConst(2)).map(Fun::CellSet(out)),
    );

    let work_remains = runtime.instant(FUEL);
    assert_eq!(work_remains, false);
    assert_eq!(runtime.cell_value(out), 42);
}

#[test]
fn two_pauses_complete_in_three_instants() {
    let mut runtime = Runtime::new();
    runtime.submit_process(
        value(Val::Int(21)).pause().map(Fun::MulConst(2)).pause(),
    );

    assert_eq!(runtime.instant(FUEL), true);
    assert_eq!(runtime.result_value(), None);
    assert_eq!(runtime.instant(FUEL), true);
    assert_eq!(runtime.result_value(), None);
    assert_eq!(runtime.instant(FUEL), false);
    assert_eq!(runtime.result_value(), Some(Val::Int(42)));
}

#[test]
fn join_with_delays_completes_in_four_instants() {
    let mut runtime = Runtime::new();
    runtime.submit_process(
        value(Val::Int(10))
            .join(value(Val::Int(32)).pause().pause().pause())
            .map(Fun::SumPair),
    );

    assert_eq!(runtime.instant(FUEL), true);
    assert_eq!(runtime.instant(FUEL), true);
    assert_eq!(runtime.instant(FUEL), true);
    assert_eq!(runtime.instant(FUEL), false);
    assert_eq!(runtime.result_value(), Some(Val::Int(42)));
}

#[test]
fn join_either_order_pairs_values() {
    let pair = execute_process(value(Val::Int(1)).join(value(Val::Int(2))), FUEL);
    assert_eq!(
        pair,
        Some(Val::Pair(Box::new(Val::Int(1)), Box::new(Val::Int(2)))),
    );

    let swapped = execute_process(value(Val::Int(2)).join(value(Val::Int(1))), FUEL);
    assert_eq!(
        swapped,
        Some(Val::Pair(Box::new(Val::Int(2)), Box::new(Val::Int(1)))),
    );
}

#[test]
fn and_then_runs_produced_process() {
    // The first process's value is discarded; the produced process runs in
    // its place.
    let process = value(Val::Int(1)).and_then(
        Fun::ConstProc(Box::new(value(Val::Int(21)).map(Fun::MulConst(2)))),
    );
    assert_eq!(Some(Val::Int(42)), execute_process(process, FUEL));
}

#[test]
fn flatten_runs_carried_process() {
    let carried = value(Val::Proc(Box::new(value(Val::Int(7))))).flatten();
    assert_eq!(Some(Val::Int(7)), execute_process(carried, FUEL));
}

#[test]
fn flatten_of_plain_value_halts() {
    // Flattening a non-process value is a contract violation: the machine
    // halts loudly and no result is produced.
    let broken = value(Val::Int(5)).flatten();
    assert_eq!(None, execute_process(broken, FUEL));
}

#[test]
fn map_type_error_halts() {
    // Adding to the unit value is a contract violation.
    let broken = value(Val::Unit).map(Fun::AddConst(1));
    assert_eq!(None, execute_process(broken, FUEL));
}

#[test]
fn endless_loop_exhausts_budget() {
    let looping = value(Val::Status(LoopStatus::Continue)).while_loop();
    assert_eq!(None, execute_process(looping, 10_000));
}

#[test]
fn runtime_can_run_processes_in_sequence() {
    let mut runtime = Runtime::new();
    assert_eq!(runtime.run_process(value(Val::Int(1)), FUEL), Some(Val::Int(1)));
    assert_eq!(runtime.run_process(value(Val::Int(2)), FUEL), Some(Val::Int(2)));
}
