use reactrust::processes::value;
use reactrust::runtime::Runtime;
use reactrust::signals::signals::Signal;
use reactrust::signals::value_signal::ValueSignal;
use reactrust::values::Fun;
use reactrust::values::GatherFun;
use reactrust::values::Val;

const FUEL: u64 = 1_000_000;

#[test]
fn count_using_signal_values() {
    let mut runtime = Runtime::new();

    let value_signal = ValueSignal::new_with_gather_function(
        &mut runtime,
        Val::Int(0),
        GatherFun::Replace,
    );

    let emit_counter = runtime.new_cell(0);
    let signal_value_sum = runtime.new_cell(0);

    // Each iteration emits 3 and adds the previous instant's gathered value
    // into the sum; the loop exits after 14 iterations.
    let emit_loop_process = value_signal.emit_value(Val::Int(3)).pause();
    let await_loop_process = value_signal.await_signal().map(Fun::CellAdd(signal_value_sum));

    let join_process = await_loop_process
        .join(emit_loop_process)
        .map(Fun::ConstInt(1))
        .map(Fun::CellAdd(emit_counter))
        .map(Fun::CellGet(emit_counter))
        .map(Fun::ExitIfEq(14))
        .while_loop();

    runtime.run_process(join_process, FUEL);
    assert_eq!(runtime.cell_value(signal_value_sum), 42);
}

#[test]
fn await_receives_previous_instant_value() {
    let mut runtime = Runtime::new();
    let value_signal = ValueSignal::new_with_gather_function(
        &mut runtime,
        Val::Int(0),
        GatherFun::Replace,
    );

    // The await is woken one instant after the emission and receives the
    // value gathered in the emission's instant.
    let r = runtime.run_process(
        value_signal.await_signal().join(value_signal.emit_value(Val::Int(9))),
        FUEL,
    );
    assert_eq!(
        r,
        Some(Val::Pair(Box::new(Val::Int(9)), Box::new(Val::Unit))),
    );
}

#[test]
fn replace_gather_keeps_first_emission_of_an_instant() {
    let mut runtime = Runtime::new();
    let value_signal = ValueSignal::new_with_gather_function(
        &mut runtime,
        Val::Int(0),
        GatherFun::Replace,
    );

    // Emission is idempotent within an instant: the second value is dropped.
    let emits = value_signal.emit_value(Val::Int(5)).join(value_signal.emit_value(Val::Int(4)));
    let r = runtime.run_process(value_signal.await_signal().join(emits), FUEL);
    match r {
        Some(Val::Pair(first, _)) => assert_eq!(*first, Val::Int(5)),
        other => panic!("unexpected result {:?}", other),
    }
}

#[test]
fn collecting_signal_delivers_cons_list() {
    let mut runtime = Runtime::new();
    let value_signal = ValueSignal::new(&mut runtime);

    let r = runtime.run_process(
        value_signal.await_signal().join(value_signal.emit_value(Val::Int(7))),
        FUEL,
    );
    match r {
        Some(Val::Pair(gathered, _)) => {
            assert_eq!(*gathered, Val::Cons(Box::new(Val::Int(7)), Box::new(Val::Nil)));
        },
        other => panic!("unexpected result {:?}", other),
    }
}

#[test]
fn all_observers_receive_the_same_gathered_value() {
    let mut runtime = Runtime::new();
    let value_signal = ValueSignal::new_with_gather_function(
        &mut runtime,
        Val::Int(0),
        GatherFun::Replace,
    );
    let first_seen = runtime.new_cell(0);
    let second_seen = runtime.new_cell(0);

    // Two independent observers of the same present instant read the same
    // gathered value.
    let observers = value_signal
        .await_signal()
        .map(Fun::CellAdd(first_seen))
        .join(value_signal.await_signal().map(Fun::CellAdd(second_seen)));
    runtime.run_process(observers.join(value_signal.emit_value(Val::Int(9))), FUEL);

    assert_eq!(runtime.cell_value(first_seen), 9);
    assert_eq!(runtime.cell_value(second_seen), 9);
}

#[test]
fn default_value_restored_each_instant() {
    let mut runtime = Runtime::new();
    let value_signal = ValueSignal::new_with_gather_function(
        &mut runtime,
        Val::Int(0),
        GatherFun::Add,
    );

    // A summing signal gathers 4 in the first run.  The accumulator then
    // returns to the default, so a later emission of 5 is gathered as 5,
    // not 9.
    let r1 = runtime.run_process(
        value_signal.await_signal().join(value_signal.emit_value(Val::Int(4))),
        FUEL,
    );
    match r1 {
        Some(Val::Pair(first, _)) => assert_eq!(*first, Val::Int(4)),
        other => panic!("unexpected result {:?}", other),
    }
    let r2 = runtime.run_process(
        value_signal.await_signal().join(value_signal.emit_value(Val::Int(5))),
        FUEL,
    );
    match r2 {
        Some(Val::Pair(first, _)) => assert_eq!(*first, Val::Int(5)),
        other => panic!("unexpected result {:?}", other),
    }
}
