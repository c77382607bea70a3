use x86test::ioexit::{handle_ioexit, IoDirection, IoHandleError, IoHandleStatus, SerialPrinter};
use x86test::runner::{test_passed, RunState, Summary, VmExit};
use x86test::types::{StaticTestFn, X86TestFn};

fn descriptor(ioport_reads: (u16, u32), should_panic: bool) -> X86TestFn {
    X86TestFn {
        name: String::from("t"),
        ignore: false,
        identity_map: true,
        physical_memory: (0, 0),
        ioport_reads,
        should_panic,
        should_halt: false,
        testfn: StaticTestFn(0x40_1000),
    }
}

/// Feed the exits of one test run and return whether it panicked, and the
/// serial output.
fn run(meta: &X86TestFn, exits: &[(IoDirection, u16, u64)]) -> (bool, Vec<u8>, Vec<Option<u64>>) {
    let mut printer = SerialPrinter::new();
    let mut state = RunState::new();
    let mut out = Vec::new();
    let mut rax = Vec::new();
    for (dir, port, val) in exits {
        let a = handle_ioexit(meta, *dir, *port, *val, &mut printer);
        if let Some(line) = a.output {
            out.extend(line);
        }
        rax.push(a.set_rax);
        state.on_exit(VmExit::Io(a.status));
        if state.done {
            break;
        }
    }
    assert!(state.done);
    (state.panicked, out, rax)
}

#[test]
fn serial_round_trip() {
    let mut p = SerialPrinter::new();
    let mut out = Vec::new();
    for b in "hello\n".bytes() {
        match p.write(b) {
            Some(line) => out.push(line),
            None => {}
        }
    }
    assert_eq!(out, vec![b"hello\n".to_vec()]);
    assert!(p.flush().is_empty());
}

#[test]
fn serial_flush_hands_out_partial_line() {
    let mut p = SerialPrinter::new();
    assert_eq!(p.write(b'a'), None);
    assert_eq!(p.write(b'b'), None);
    assert_eq!(p.flush(), b"ab".to_vec());
    assert_eq!(p.flush(), Vec::<u8>::new());
}

#[test]
fn mocked_read_scenario() {
    let meta = descriptor((0x1, 0xfe), false);
    let (panicked, out, rax) = run(&meta, &[(IoDirection::In, 0x1, 0), (IoDirection::Out, 0xf4, 0)]);
    assert_eq!(rax[0], Some(0xfe));
    assert!(!panicked);
    assert!(out.is_empty());
    assert!(test_passed(panicked, meta.should_panic));
}

#[test]
fn serial_print_scenario() {
    let meta = descriptor((0, 0), false);
    let text = "sprint!, sprintln! works\n";
    let mut exits = Vec::new();
    for b in text.bytes() {
        exits.push((IoDirection::In, 0x3fd, 0));
        exits.push((IoDirection::Out, 0x3f8, b as u64 | 0x1200));
    }
    exits.push((IoDirection::Out, 0xf4, 0));
    let (panicked, out, rax) = run(&meta, &exits);
    assert_eq!(out, text.as_bytes().to_vec());
    assert_eq!(rax[0], Some(0x20));
    assert!(!panicked);
    assert!(test_passed(panicked, meta.should_panic));
}

#[test]
fn declared_panic_scenario() {
    let meta = descriptor((0, 0), true);
    let mut p = SerialPrinter::new();
    let a = handle_ioexit(&meta, IoDirection::Out, 0xf4, 2, &mut p);
    assert_eq!(a.status, Ok(IoHandleStatus::TestPanic(2)));
    let (panicked, _, _) = run(&meta, &[(IoDirection::Out, 0xf4, 2)]);
    assert!(panicked);
    assert!(test_passed(panicked, meta.should_panic));
}

#[test]
fn unexpected_write_scenario() {
    let meta = descriptor((0, 0), false);
    let mut p = SerialPrinter::new();
    let a = handle_ioexit(&meta, IoDirection::Out, 0x99, 0x41, &mut p);
    assert_eq!(a.status, Err(IoHandleError::UnexpectedWrite(0x99, 0x41)));
    let (panicked, _, _) = run(&meta, &[(IoDirection::Out, 0x99, 0x41), (IoDirection::Out, 0xf4, 0)]);
    assert!(panicked);
    assert!(!test_passed(panicked, meta.should_panic));
}

#[test]
fn dispatcher_table() {
    let meta = descriptor((0x60, 0x1234_5678), false);
    let mut p = SerialPrinter::new();
    let a = handle_ioexit(&meta, IoDirection::In, 0x2fd, 7, &mut p);
    assert_eq!((a.status, a.set_rax), (Ok(IoHandleStatus::Handled), Some(0x20)));
    let a = handle_ioexit(&meta, IoDirection::In, 0x60, 7, &mut p);
    assert_eq!((a.status, a.set_rax), (Ok(IoHandleStatus::Handled), Some(0x1234_5678)));
    let a = handle_ioexit(&meta, IoDirection::In, 0x61, 7, &mut p);
    assert_eq!((a.status, a.set_rax), (Err(IoHandleError::UnexpectedRead(0x61)), None));
    let a = handle_ioexit(&meta, IoDirection::Out, 0x2f8, b'x' as u64, &mut p);
    assert_eq!((a.status, a.output), (Ok(IoHandleStatus::Handled), None));
    assert!(p.flush().is_empty());
    // only the low byte of RAX is the shutdown code
    let a = handle_ioexit(&meta, IoDirection::Out, 0xf4, 0x100, &mut p);
    assert_eq!(a.status, Ok(IoHandleStatus::TestSuccessful));
    let a = handle_ioexit(&meta, IoDirection::Out, 0x80, 0x1_2345_6789, &mut p);
    assert_eq!(a.status, Err(IoHandleError::UnexpectedWrite(0x80, 0x2345_6789)));
    // an output port equal to the mocked input port is not mocked
    let a = handle_ioexit(&meta, IoDirection::Out, 0x60, 1, &mut p);
    assert_eq!(a.status, Err(IoHandleError::UnexpectedWrite(0x60, 1)));
}

#[test]
fn run_state_transitions() {
    let mut s = RunState::new();
    s.on_exit(VmExit::Io(Ok(IoHandleStatus::Handled)));
    assert_eq!(s, RunState { done: false, panicked: false });
    s.on_exit(VmExit::Io(Ok(IoHandleStatus::TestSuccessful)));
    assert_eq!(s, RunState { done: true, panicked: false });
    let mut s = RunState::new();
    s.on_exit(VmExit::Shutdown);
    assert_eq!(s, RunState { done: true, panicked: true });
    let mut s = RunState::new();
    s.on_exit(VmExit::Other);
    assert_eq!(s, RunState { done: true, panicked: true });
    let mut s = RunState::new();
    s.on_exit(VmExit::Io(Err(IoHandleError::UnexpectedRead(3))));
    assert_eq!(s, RunState { done: true, panicked: true });
}

#[test]
fn summary_counts_and_exit_code() {
    let mut s = Summary::new();
    s.record_ignored();
    assert!(s.record(false, false));
    assert!(s.record(true, true));
    assert!(s.ok());
    assert_eq!(s.exit_code(), 0);
    assert!(!s.record(true, false));
    assert!(!s.record(false, true));
    assert_eq!(s, Summary { passed: 2, failed: 2, ignored: 1 });
    assert!(!s.ok());
    assert_eq!(s.exit_code(), 101);
}

#[test]
fn summary_counts_staging_failure() {
    let mut s = Summary::new();
    s.record_failure();
    assert_eq!(s, Summary { passed: 0, failed: 1, ignored: 0 });
    assert_eq!(s.exit_code(), 101);
}
