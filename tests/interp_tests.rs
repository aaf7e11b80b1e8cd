use stack_interp::{Event, Interp, LoadError, ParsedLine, RunError, Stack, StackVal, Status};
use stack_interp::{Instr, LabelTable};

fn lines(text: &str) -> Vec<String> {
    text.split('\n').map(String::from).collect()
}

fn load(text: &str) -> Result<Interp, LoadError> {
    Interp::new(&lines(text))
}

fn run_all(text: &str) -> (Vec<i32>, Status, Vec<usize>) {
    let mut it = load(text).expect("program loads");
    let report = it.run(10_000);
    (report.output, report.status, report.trace)
}

#[test]
fn round_trip_arithmetic() {
    let (out, status, _) = run_all("push 3\npush 4\nadd\nprint");
    assert_eq!(out, vec![7]);
    assert_eq!(status, Status::Halted);
}

#[test]
fn subtraction_order() {
    let (out, status, _) = run_all("push 10\npush 3\nsub\nprint");
    assert_eq!(out, vec![7]);
    assert_eq!(status, Status::Halted);
}

#[test]
fn dup_then_add() {
    let (out, _, _) = run_all("push 5\ndup\nadd\nprint");
    assert_eq!(out, vec![10]);
}

#[test]
fn forward_jump_skips_block() {
    let (out, status, trace) = run_all("push 0\nje 0 skip\npush 99\npop\nskip:\npush 1\nprint");
    assert_eq!(out, vec![1]);
    assert_eq!(status, Status::Halted);
    assert_eq!(trace, vec![0, 1, 4, 5]);
}

#[test]
fn backward_jump_loop_terminates() {
    // counts 3 down to 0, then prints the final counter once
    let src = "push 3\nloop:\npush 1\nsub\ndup\njne 0 loop\npush 0\nadd\nprint";
    let (out, status, _) = run_all(src);
    assert_eq!(out, vec![0]);
    assert_eq!(status, Status::Halted);
}

#[test]
fn underflow_is_fatal() {
    let (out, status, trace) = run_all("pop");
    assert!(out.is_empty());
    assert_eq!(status, Status::Faulted(RunError::StackUnderflow));
    assert_eq!(trace, vec![0]);
}

#[test]
fn duplicate_label_fails_to_load() {
    assert_eq!(load("loop:\npush 1\nloop:\nprint").err(), Some(LoadError::DuplicateLabel));
}

#[test]
fn unknown_opcode_fails_to_load() {
    assert_eq!(load("frobnicate").err(), Some(LoadError::UnknownOpcode));
}

#[test]
fn straight_line_trace_is_textual_order() {
    let (out, status, trace) = run_all("push 1\npush 2\nprint\nprint\npush 3\npop");
    assert_eq!(out, vec![2, 1]);
    assert_eq!(status, Status::Halted);
    assert_eq!(trace, vec![0, 1, 2, 3, 4, 5]);
}

#[test]
fn step_budget_cuts_run_short() {
    let mut it = load("push 1\npush 2\nadd\nprint").unwrap();
    let report = it.run(2);
    assert_eq!(report.status, Status::OutOfFuel);
    assert_eq!(report.trace, vec![0, 1]);
    assert!(report.output.is_empty());
    assert_eq!(it.pc(), 2);
    let rest = it.run(10);
    assert_eq!(rest.output, vec![3]);
    assert_eq!(rest.status, Status::Halted);
}

#[test]
fn infinite_loop_runs_out_of_fuel() {
    let mut it = load("top:\npush 1\njne 0 top").unwrap();
    let report = it.run(7);
    assert_eq!(report.status, Status::OutOfFuel);
    assert_eq!(report.trace, vec![0, 1, 0, 1, 0, 1, 0]);
}

#[test]
fn undefined_label_fails_only_when_taken() {
    let (out, status, _) = run_all("push 1\nje 0 nowhere\npush 4\nprint");
    assert_eq!(out, vec![4]);
    assert_eq!(status, Status::Halted);
    let (out, status, _) = run_all("push 0\nje 0 nowhere\npush 4\nprint");
    assert!(out.is_empty());
    assert_eq!(status, Status::Faulted(RunError::UndefinedLabel));
}

#[test]
fn add_needs_two_values() {
    let (_, status, _) = run_all("push 1\nadd");
    assert_eq!(status, Status::Faulted(RunError::StackUnderflow));
}

#[test]
fn arithmetic_wraps() {
    let (out, _, _) = run_all("push 2147483647\npush 1\nadd\nprint\npush -2147483648\npush 1\nsub\nprint");
    assert_eq!(out, vec![-2147483648, 2147483647]);
}

#[test]
fn step_reports_each_instruction() {
    let mut it = load("push 6\nprint").unwrap();
    assert!(!it.is_halted());
    assert_eq!(it.step(), Ok(Event::Ran(None)));
    assert_eq!(it.pc(), 1);
    assert_eq!(it.step(), Ok(Event::Ran(Some(6))));
    assert!(it.is_halted());
    assert_eq!(it.step(), Ok(Event::Halted));
}

#[test]
fn failed_step_leaves_state() {
    let mut it = load("print").unwrap();
    assert_eq!(it.step(), Err(RunError::StackUnderflow));
    assert_eq!(it.pc(), 0);
}

#[test]
fn label_at_end_halts() {
    let (out, status, _) = run_all("push 0\nje 0 end\npush 5\nprint\nend:");
    assert!(out.is_empty());
    assert_eq!(status, Status::Halted);
}

#[test]
fn load_errors() {
    assert_eq!(load("push").err(), Some(LoadError::TooFewArguments));
    assert_eq!(load("je 1").err(), Some(LoadError::TooFewArguments));
    assert_eq!(load("push 1 2").err(), Some(LoadError::TooManyOperands));
    assert_eq!(load("add x").err(), Some(LoadError::TooManyOperands));
    assert_eq!(load("push x").err(), Some(LoadError::UnparsedNumber));
    assert_eq!(load("jne y lbl").err(), Some(LoadError::UnparsedNumber));
    assert_eq!(load("push  3").err(), Some(LoadError::UnparsedNumber));
    assert_eq!(load("push 2147483648").err(), Some(LoadError::UnparsedNumber));
    assert_eq!(load("").err(), Some(LoadError::UnknownOpcode));
    assert_eq!(load("here: now").err(), Some(LoadError::TooManyOperands));
}

#[test]
fn surrounding_whitespace_is_ignored() {
    let (out, _, _) = run_all("  push 3\t\n\tpush 4  \n add \nprint\r");
    assert_eq!(out, vec![7]);
    // a tab inside a line does not separate tokens
    assert_eq!(load("push\t4").err(), Some(LoadError::UnknownOpcode));
}

#[test]
fn parse_line_forms() {
    match Interp::parse_line("  je -5 target ") {
        Ok(ParsedLine::Instr(Instr::JumpEqual(c, l))) => {
            assert_eq!(c, -5);
            assert_eq!(l, "target");
        }
        other => panic!("unexpected {:?}", other),
    }
    match Interp::parse_line("loop:") {
        Ok(ParsedLine::Label(l)) => assert_eq!(l, "loop"),
        other => panic!("unexpected {:?}", other),
    }
    match Interp::parse_line("push +12") {
        Ok(ParsedLine::Instr(Instr::Push(StackVal::Number(v)))) => assert_eq!(v, 12),
        other => panic!("unexpected {:?}", other),
    }
}

#[test]
fn parse_number_cases() {
    assert_eq!(Interp::parse_number("-2147483648"), Ok(i32::MIN));
    assert_eq!(Interp::parse_number("2147483647"), Ok(i32::MAX));
    assert_eq!(Interp::parse_number("007"), Ok(7));
    assert_eq!(Interp::parse_number("-"), Err(LoadError::UnparsedNumber));
    assert_eq!(Interp::parse_number("+"), Err(LoadError::UnparsedNumber));
    assert_eq!(Interp::parse_number(""), Err(LoadError::UnparsedNumber));
    assert_eq!(Interp::parse_number("1x"), Err(LoadError::UnparsedNumber));
    assert_eq!(Interp::parse_number("-2147483649"), Err(LoadError::UnparsedNumber));
    assert_eq!(Interp::parse_number("99999999999999999999"), Err(LoadError::UnparsedNumber));
}

#[test]
fn stack_push_pop() {
    let mut s = Stack::new();
    assert_eq!(s.pop(), Err(RunError::StackUnderflow));
    s.push(StackVal::Number(1));
    s.push(StackVal::Number(2));
    assert_eq!(s.len(), 2);
    assert_eq!(s.peek(), Some(StackVal::Number(2)));
    assert_eq!(s.pop_number(), Ok(2));
    assert_eq!(s.pop(), Ok(StackVal::Number(1)));
    assert_eq!(s.pop_number(), Err(RunError::StackUnderflow));
}

#[test]
fn label_table_refuses_duplicates() {
    let mut t = LabelTable::new();
    assert!(t.insert(String::from("a"), 3));
    assert!(!t.insert(String::from("a"), 5));
    assert_eq!(t.get("a"), Some(3));
    assert_eq!(t.get("b"), None);
}

#[test]
fn lexer_pieces() {
    assert_eq!(stack_interp::trim_text("\u{3000} a b \u{a0}"), "a b");
    assert_eq!(stack_interp::split_text("a  b"), vec!["a", "", "b"]);
    assert_eq!(stack_interp::split_text(""), vec![""]);
    assert!(stack_interp::same_text("jne", "jne"));
    assert!(!stack_interp::same_text("jne", "je"));
    assert_eq!(stack_interp::parse_decimal("-0"), Some(0));
}

#[test]
fn error_messages() {
    assert_eq!(LoadError::DuplicateLabel.message(), "parse error: duplicate label");
    assert_eq!(RunError::UndefinedLabel.message(), "undefined label");
}
