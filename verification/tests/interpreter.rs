use bf_interpreter::engine::BfInterpreter;
use bf_interpreter::token::{RuntimeError, StepResult};

#[test]
fn hello_world() {
    let program = "++++++++[>++++[>++>+++>+++>+<<<<-]>+>+>->>+[<]<-]>>.>---.+++++++..+++.>>.<-.<.+++.------.--------.>>+.>++.";
    let mut bf = BfInterpreter::new(program.as_bytes()).unwrap();

    let mut result = vec![];
    loop {
        let ret = bf.step().unwrap();
        match ret {
            StepResult::Finished => break,
            StepResult::Output(o) => {
                result.push(o);
            }
            _ => {}
        }
    }
    assert_eq!(result, b"Hello World!\n")
}

#[test]
fn memory_overflow() {
    let program = ">".repeat(30_001);
    let mut bf = BfInterpreter::new(program.as_bytes()).unwrap();
    loop {
        match bf.step() {
            Err(e) => {
                assert_eq!(e.message(), "Memory overflow");
                break;
            }
            _ => {}
        }
    }
}

#[test]
fn memory_underflow() {
    let program = "<";
    let mut bf = BfInterpreter::new(program.as_bytes()).unwrap();
    match bf.step() {
        Err(e) => {
            assert_eq!(e.message(), "Memory underflow");
        }
        _ => {}
    }
}

#[test]
fn handle_missing_brackets_error() {
    let cases = vec!["[", "[][][", "[[[[]]]"];
    for c in cases {
        let bf = BfInterpreter::new(c.as_bytes());
        assert!(bf.is_err());
        assert_eq!(bf.unwrap_err().message(), "Missing ']'");
    }

    let cases = vec!["]", "[][][]]", "[[[[]]]]]"];
    for c in cases {
        let bf = BfInterpreter::new(c.as_bytes());
        assert!(bf.is_err());
        assert_eq!(bf.unwrap_err().message(), "Missing '['");
    }
}

#[test]
fn input_echo() {
    let mut bf = BfInterpreter::new(b",.").unwrap();
    assert_eq!(bf.step().unwrap(), StepResult::NeedsInput);
    bf.set_input(65);
    assert_eq!(bf.step().unwrap(), StepResult::Output(65));
    assert_eq!(bf.step().unwrap(), StepResult::Finished);
}

#[test]
fn increment_wraps_to_zero() {
    // 255 arrives by input; one increment must wrap it to 0.
    let mut bf = BfInterpreter::new(b",+.").unwrap();
    assert_eq!(bf.step().unwrap(), StepResult::NeedsInput);
    bf.set_input(255);
    assert_eq!(bf.step().unwrap(), StepResult::Continue);
    assert_eq!(bf.step().unwrap(), StepResult::Output(0));
}

#[test]
fn decrement_wraps_to_255() {
    let mut bf = BfInterpreter::new(b"-.").unwrap();
    assert_eq!(bf.step().unwrap(), StepResult::Continue);
    assert_eq!(bf.step().unwrap(), StepResult::Output(255));
}

#[test]
fn pointer_bound_errors_are_typed() {
    let mut bf = BfInterpreter::new(b"<").unwrap();
    assert_eq!(bf.step(), Err(RuntimeError::TapeUnderflow));

    let program = ">".repeat(30_000);
    let mut bf = BfInterpreter::new(program.as_bytes()).unwrap();
    for _ in 0..29_999 {
        assert_eq!(bf.step(), Ok(StepResult::Continue));
    }
    assert_eq!(bf.step(), Err(RuntimeError::TapeOverflow));
}

#[test]
fn finished_is_idempotent() {
    let mut bf = BfInterpreter::new(b"+").unwrap();
    assert_eq!(bf.step().unwrap(), StepResult::Continue);
    assert_eq!(bf.step().unwrap(), StepResult::Finished);
    let pc = bf.pc;
    let dp = bf.data_ptr;
    let cell = bf.cells[0];
    for _ in 0..3 {
        assert_eq!(bf.step().unwrap(), StepResult::Finished);
        assert_eq!(bf.pc, pc);
        assert_eq!(bf.data_ptr, dp);
        assert_eq!(bf.cells[0], cell);
    }
}

#[test]
fn empty_program_finishes_at_once() {
    let mut bf = BfInterpreter::new(b"").unwrap();
    assert_eq!(bf.step().unwrap(), StepResult::Finished);
}

#[test]
fn construction_zeroes_state() {
    let bf = BfInterpreter::new(b"+-<>.,").unwrap();
    assert_eq!(bf.pc, 0);
    assert_eq!(bf.data_ptr, 0);
    assert_eq!(bf.cells.len(), 30_000);
    assert!(bf.cells.iter().all(|&c| c == 0));
}

#[test]
fn loop_skipped_when_cell_zero() {
    // cell 0 is zero, so the whole loop body is jumped over
    let mut bf = BfInterpreter::new(b"[+++].").unwrap();
    assert_eq!(bf.step().unwrap(), StepResult::Continue);
    assert_eq!(bf.pc, 5);
    assert_eq!(bf.step().unwrap(), StepResult::Output(0));
}

#[test]
fn loop_runs_until_cell_zero() {
    // put 3 in cell 0, count it down, then output it
    let mut bf = BfInterpreter::new(b"+++[-].").unwrap();
    let mut outputs = vec![];
    loop {
        match bf.step().unwrap() {
            StepResult::Finished => break,
            StepResult::Output(o) => outputs.push(o),
            _ => {}
        }
    }
    assert_eq!(outputs, vec![0]);
}
