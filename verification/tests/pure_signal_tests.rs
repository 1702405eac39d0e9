use reactrust::processes::value;
use reactrust::runtime::Runtime;
use reactrust::signals::pure_signal::PureSignal;
use reactrust::signals::signals::Signal;
use reactrust::values::Fun;
use reactrust::values::Val;

const FUEL: u64 = 1_000_000;

// This function joins an emitting process and an awaiting process, in both
// possible orders.  This allows tests to try both orders without duplicating
// most of the code.  The emitting process records whether the signal had
// already been received at the moment it emitted; the awaiting process
// records whether the signal had already been emitted at the moment it was
// woken.
fn general_emit_and_await_immediate(await_first: bool) {
    let mut runtime = Runtime::new();
    let pure_signal = PureSignal::new(&mut runtime);

    let pure_signal_emitted = runtime.new_cell(0);
    let pure_signal_received = runtime.new_cell(0);
    let received_at_emission = runtime.new_cell(0);
    let emitted_at_reception = runtime.new_cell(0);

    // First process: record that the signal has *not* been received before,
    // and emit the signal.
    let process_emit = pure_signal
        .emit()
        .map(Fun::CellGet(pure_signal_received))
        .map(Fun::CellAdd(received_at_emission))
        .map(Fun::ConstInt(1))
        .map(Fun::CellSet(pure_signal_emitted));

    // Second process: record that the signal has been emitted before, once
    // received.
    let process_await = pure_signal
        .await_immediate()
        .map(Fun::CellGet(pure_signal_emitted))
        .map(Fun::CellAdd(emitted_at_reception))
        .map(Fun::ConstInt(1))
        .map(Fun::CellSet(pure_signal_received));

    // Third (main) process: run both processes.  The order of the join
    // operation is decided at this point, according to the given parameter.
    if await_first {
        runtime.run_process(process_await.join(process_emit), FUEL);
    } else {
        runtime.run_process(process_emit.join(process_await), FUEL);
    }

    // The signal was emitted and received, the emitter saw it unreceived,
    // and the receiver saw it emitted.
    assert_eq!(runtime.cell_value(pure_signal_emitted), 1);
    assert_eq!(runtime.cell_value(pure_signal_received), 1);
    assert_eq!(runtime.cell_value(received_at_emission), 0);
    assert_eq!(runtime.cell_value(emitted_at_reception), 1);
}

#[test]
fn emit_and_await_immediate() {
    general_emit_and_await_immediate(false);
}

#[test]
fn await_immediate_and_emit() {
    general_emit_and_await_immediate(true);
}

fn general_present_or_absent_signal(emit_signal: bool) {
    let mut runtime = Runtime::new();
    let pure_signal = PureSignal::new(&mut runtime);

    let present_signal = runtime.new_cell(0);
    let if_ran = runtime.new_cell(0);
    let else_ran = runtime.new_cell(0);
    let if_observed = runtime.new_cell(0);
    let else_observed = runtime.new_cell(0);

    // First process: ran if the signal is present (during current instant);
    // records the present flag it observed.
    let process_if = value(Val::Unit)
        .map(Fun::CellGet(present_signal))
        .map(Fun::CellAdd(if_observed))
        .map(Fun::ConstInt(1))
        .map(Fun::CellSet(if_ran));

    // Second process: ran in the next instant if the signal was absent;
    // records the present flag it observed.
    let process_else = value(Val::Unit)
        .map(Fun::CellGet(present_signal))
        .map(Fun::CellAdd(else_observed))
        .map(Fun::ConstInt(1))
        .map(Fun::CellSet(else_ran));

    // Run a present process, and possibly emit the signal during the same
    // instant (using the join construct).
    if emit_signal {
        let emit_process = pure_signal
            .emit()
            .map(Fun::ConstInt(1))
            .map(Fun::CellSet(present_signal));
        runtime.run_process(
            pure_signal.present(process_if, process_else).join(emit_process),
            FUEL,
        );
        assert_eq!(runtime.cell_value(if_ran), 1);
        assert_eq!(runtime.cell_value(else_ran), 0);
        assert_eq!(runtime.cell_value(if_observed), 1);
    } else {
        runtime.run_process(pure_signal.present(process_if, process_else), FUEL);
        assert_eq!(runtime.cell_value(if_ran), 0);
        assert_eq!(runtime.cell_value(else_ran), 1);
        assert_eq!(runtime.cell_value(else_observed), 0);
    }
}

#[test]
fn signal_is_present() {
    general_present_or_absent_signal(true);
}

#[test]
fn signal_is_absent() {
    general_present_or_absent_signal(false);
}

#[test]
fn absent_branch_runs_in_second_instant() {
    let mut runtime = Runtime::new();
    let pure_signal = PureSignal::new(&mut runtime);
    let else_ran = runtime.new_cell(0);

    let process_if = value(Val::Unit);
    let process_else = value(Val::Unit).map(Fun::ConstInt(1)).map(Fun::CellSet(else_ran));
    runtime.submit_process(pure_signal.present(process_if, process_else));

    assert_eq!(runtime.instant(FUEL), true);
    assert_eq!(runtime.cell_value(else_ran), 0);
    assert_eq!(runtime.instant(FUEL), false);
    assert_eq!(runtime.cell_value(else_ran), 1);
}

#[test]
fn late_absent_registration_waits_its_own_instant() {
    let mut runtime = Runtime::new();
    let pure_signal = PureSignal::new(&mut runtime);
    let first_else = runtime.new_cell(0);
    let second_else = runtime.new_cell(0);

    // The first `present` registers on absence in the first instant; the
    // second is unwrapped by pause-and-flatten and registers in the second
    // instant, while the first one's flusher work is still around.  Each
    // absent branch must run in the instant after its own registration —
    // the second must not be dragged into its registration instant.
    let first = pure_signal.present(
        value(Val::Unit),
        value(Val::Unit).map(Fun::ConstInt(1)).map(Fun::CellSet(first_else)),
    );
    let second = value(Val::Proc(Box::new(pure_signal.present(
        value(Val::Unit),
        value(Val::Unit).map(Fun::ConstInt(1)).map(Fun::CellSet(second_else)),
    ))))
    .pause()
    .flatten();
    runtime.submit_process(first.join(second));

    assert_eq!(runtime.instant(FUEL), true);
    assert_eq!(runtime.cell_value(first_else), 0);
    assert_eq!(runtime.cell_value(second_else), 0);
    assert_eq!(runtime.instant(FUEL), true);
    assert_eq!(runtime.cell_value(first_else), 1);
    assert_eq!(runtime.cell_value(second_else), 0);
    assert_eq!(runtime.instant(FUEL), false);
    assert_eq!(runtime.cell_value(second_else), 1);
}

#[test]
fn late_registration_then_emission_runs_present_branch() {
    let mut runtime = Runtime::new();
    let pure_signal = PureSignal::new(&mut runtime);
    let if_ran = runtime.new_cell(0);
    let else_ran = runtime.new_cell(0);

    // Both the `present` and the emission happen in the second instant, the
    // registration first.  The emission cancels the absent branch, the
    // present branch runs, and the machine does not halt.
    let late_present = value(Val::Proc(Box::new(pure_signal.present(
        value(Val::Unit).map(Fun::ConstInt(1)).map(Fun::CellSet(if_ran)),
        value(Val::Unit).map(Fun::ConstInt(1)).map(Fun::CellSet(else_ran)),
    ))))
    .pause()
    .flatten();
    let late_emit = value(Val::Proc(Box::new(pure_signal.emit()))).pause().flatten();
    let r = runtime.run_process(late_emit.join(late_present), FUEL);

    assert!(r.is_some());
    assert_eq!(runtime.cell_value(if_ran), 1);
    assert_eq!(runtime.cell_value(else_ran), 0);
}

#[test]
fn emit_is_idempotent_within_an_instant() {
    let mut runtime = Runtime::new();
    let pure_signal = PureSignal::new(&mut runtime);
    let woken = runtime.new_cell(0);

    // Two emissions in one instant wake an immediate awaiter only once.
    let awaiter = pure_signal.await_immediate().map(Fun::ConstInt(1)).map(Fun::CellAdd(woken));
    let both_emits = pure_signal.emit().join(pure_signal.emit());
    let r = runtime.run_process(awaiter.join(both_emits), FUEL);

    assert!(r.is_some());
    assert_eq!(runtime.cell_value(woken), 1);
}

#[test]
fn awaiter_deadlocks_without_emission() {
    let mut runtime = Runtime::new();
    let pure_signal = PureSignal::new(&mut runtime);

    // Nothing ever emits the signal: the machine runs out of work with the
    // awaiter still queued and no result stored.
    let r = runtime.run_process(pure_signal.await_immediate(), FUEL);
    assert_eq!(r, None);
}
