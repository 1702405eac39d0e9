use reactrust::continuations::Continuation;
use reactrust::runtime::Runtime;
use reactrust::values::Fun;

const FUEL: u64 = 1_000_000;

#[test]
fn continuations_wait_two_instants() {
    let mut runtime = Runtime::new();

    let flag = runtime.new_cell(0);

    // A continuation that writes 42 into the flag cell, deferred twice: it
    // runs two instants after the one it was registered on.
    let write_flag = Continuation::Done.map(Fun::CellSet(flag)).map(Fun::ConstInt(42));
    runtime.on_current_instant(write_flag.pause().pause());

    let mut work_remains = runtime.instant(FUEL);
    assert_eq!(runtime.cell_value(flag), 0);
    assert_eq!(work_remains, true);

    work_remains = runtime.instant(FUEL);
    assert_eq!(runtime.cell_value(flag), 0);
    assert_eq!(work_remains, true);

    work_remains = runtime.instant(FUEL);
    assert_eq!(runtime.cell_value(flag), 42);
    assert_eq!(work_remains, false);

    // There should not be any task left
    work_remains = runtime.instant(FUEL);
    assert_eq!(work_remains, false);
}

#[test]
fn map_chain_applies_in_registration_order() {
    let mut runtime = Runtime::new();
    let out = runtime.new_cell(0);

    // (7 + 3) * 2 = 20: the function mapped last runs first.
    let k = Continuation::Done
        .map(Fun::CellSet(out))
        .map(Fun::MulConst(2))
        .map(Fun::AddConst(3))
        .map(Fun::ConstInt(7));
    runtime.on_current_instant(k);

    let work_remains = runtime.instant(FUEL);
    assert_eq!(work_remains, false);
    assert_eq!(runtime.cell_value(out), 20);
}

#[test]
fn end_of_instant_runs_after_current() {
    let mut runtime = Runtime::new();
    let trace = runtime.new_cell(0);

    // The end-of-instant continuation multiplies, the current-instant one
    // adds; both run within one instant, the addition first.
    let at_end = Continuation::Done
        .map(Fun::CellSet(trace))
        .map(Fun::MulConst(10))
        .map(Fun::CellGet(trace));
    let during = Continuation::Done
        .map(Fun::CellSet(trace))
        .map(Fun::AddConst(1))
        .map(Fun::CellGet(trace));
    runtime.on_end_of_instant(at_end);
    runtime.on_current_instant(during);

    let work_remains = runtime.instant(FUEL);
    assert_eq!(work_remains, false);
    assert_eq!(runtime.cell_value(trace), 10);
}
