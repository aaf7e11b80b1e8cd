//! A small stack-machine interpreter: a line-oriented loader that turns
//! program text into instructions and a label table, and an execution
//! engine that runs them against an operand stack.
//!
//! Loading and every step of execution report failure as values
//! (`LoadError`, `RunError`); deciding what to do about one, and reaching the
//! control point of each instruction with an outside tracer, is left to the
//! caller that drives `Interp::step`.
mod instr;
mod interp;
mod labels;
mod lexer;
mod loader;
mod machine;
mod stack;

pub use instr::{Instr, InstrV, LoadError, ParsedLine, ParsedLineV, RunError, StackVal};
pub use interp::{Event, Interp, RunReport};
pub use labels::LabelTable;
pub use lexer::{
    all_digits, decimal_value, digit_value, digits_value, is_digit, is_white, is_white_char,
    lemma_split_nonempty, parse_decimal, parse_i32, same_text, split_spaces, split_text, trim,
    trim_end, trim_start, trim_text,
};
pub use loader::{
    decode, instrs_view, lemma_load_error_persists, line_tokens, load, parse_line_spec,
    parsed_view, texts,
};
pub use machine::{
    has_no_jumps, jump, lemma_straight_line_order, printed, run_spec, step_spec, Machine, Run,
    Status, Transition,
};
pub use stack::Stack;
