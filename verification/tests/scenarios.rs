//! Whole-program scenarios through `run_program`.

use brainfuck::{run_program, OutputMode, RunResult, BfError};

fn chars(s: &str) -> Vec<char> {
    s.chars().collect()
}

const FUEL: u64 = 10_000_000;

fn output(s: &str) -> RunResult {
    RunResult::Output(s.to_string())
}

#[test]
fn hello_prefix_prints_hello() {
    let prog = chars("++++++++[>++++[>++>+++>+++>+<<<<-]>+>+>->>+[<]<-]>>.>---.+++++++..+++.");
    let r = run_program(prog, Vec::new(), OutputMode::Stdout, FUEL);
    assert_eq!(r, output("Hello"));
}

#[test]
fn canonical_hello_world() {
    let prog = chars(
        "++++++++[>++++[>++>+++>+++>+<<<<-]>+>+>->>+[<]<-]>>.>---.+++++++..+++.>>.<-.<.+++.------.--------.>>+.>++.",
    );
    let r = run_program(prog, Vec::new(), OutputMode::Stdout, FUEL);
    assert_eq!(r, output("Hello World!\n"));
}

#[test]
fn tape_mode_prints_final_tape() {
    let r = run_program(chars("+++."), Vec::new(), OutputMode::TapeDebug, FUEL);
    assert_eq!(r, output("[3]"));
}

#[test]
fn echoes_one_input_byte() {
    let r = run_program(chars(",."), vec![65], OutputMode::Stdout, FUEL);
    assert_eq!(r, output("A"));
}

#[test]
fn empty_input_terminates_normally() {
    let r = run_program(chars(","), Vec::new(), OutputMode::Stdout, FUEL);
    assert_eq!(r, output(""));
}

#[test]
fn left_at_position_zero_is_tape_underflow() {
    let r = run_program(chars("<"), Vec::new(), OutputMode::Stdout, FUEL);
    assert_eq!(r, RunResult::Error(BfError::TapeUnderflow));
}

#[test]
fn unmatched_open_bracket_is_fatal() {
    let r = run_program(chars("["), Vec::new(), OutputMode::Stdout, FUEL);
    assert_eq!(r, RunResult::Error(BfError::UnmatchedBracket));
}

#[test]
fn unmatched_close_bracket_is_fatal() {
    let r = run_program(chars("+]"), Vec::new(), OutputMode::Stdout, FUEL);
    assert_eq!(r, RunResult::Error(BfError::UnmatchedBracket));
}

#[test]
fn comments_only_program_has_no_output() {
    let r = run_program(chars("hello there"), vec![1, 2, 3], OutputMode::Stdout, FUEL);
    assert_eq!(r, output(""));
}

#[test]
fn comments_only_program_leaves_tape_untouched() {
    let r = run_program(chars("no instructions"), Vec::new(), OutputMode::TapeDebug, FUEL);
    assert_eq!(r, output("[0]"));
}

#[test]
fn increment_wraps_after_256_steps() {
    let prog = chars(&"+".repeat(256));
    let r = run_program(prog, Vec::new(), OutputMode::TapeDebug, FUEL);
    assert_eq!(r, output("[0]"));
}

#[test]
fn decrement_wraps_below_zero() {
    let r = run_program(chars("-"), Vec::new(), OutputMode::TapeDebug, FUEL);
    assert_eq!(r, output("[255]"));
}

#[test]
fn decrement_wraps_after_256_steps() {
    let prog = chars(&"-".repeat(256));
    let r = run_program(prog, Vec::new(), OutputMode::TapeDebug, FUEL);
    assert_eq!(r, output("[0]"));
}

#[test]
fn tape_doubles_as_pointer_moves_right() {
    let r = run_program(chars(">>>"), Vec::new(), OutputMode::TapeDebug, FUEL);
    assert_eq!(r, output("[0, 0, 0, 0]"));
}

#[test]
fn clear_loop_zeroes_cell() {
    let r = run_program(chars("+++[-]"), Vec::new(), OutputMode::TapeDebug, FUEL);
    assert_eq!(r, output("[0]"));
}

#[test]
fn nested_loops_match_correct_brackets() {
    let r = run_program(chars("++[>++[-]<-]"), Vec::new(), OutputMode::TapeDebug, FUEL);
    assert_eq!(r, output("[0, 0]"));
}

#[test]
fn skipped_loop_ignores_unmatched_inner_state() {
    let r = run_program(chars("[<<<]+."), Vec::new(), OutputMode::Stdout, FUEL);
    assert_eq!(r, output("\u{1}"));
}

#[test]
fn output_byte_above_ascii_is_its_character() {
    let prog = chars(&("+".repeat(200) + "."));
    let r = run_program(prog, Vec::new(), OutputMode::Stdout, FUEL);
    assert_eq!(r, output("\u{c8}"));
}

#[test]
fn tape_ascii_decodes_final_tape() {
    let prog = chars(&"+".repeat(72));
    let r = run_program(prog, Vec::new(), OutputMode::TapeAscii, FUEL);
    assert_eq!(r, output("H"));
}

#[test]
fn tape_ascii_decodes_multibyte_sequence() {
    let prog = chars(&("+".repeat(195) + ">" + &"+".repeat(169)));
    let r = run_program(prog, Vec::new(), OutputMode::TapeAscii, FUEL);
    assert_eq!(r, output("\u{e9}"));
}

#[test]
fn tape_ascii_rejects_invalid_utf8() {
    let r = run_program(chars("-"), Vec::new(), OutputMode::TapeAscii, FUEL);
    assert_eq!(r, RunResult::Error(BfError::InvalidTextEncoding));
}

#[test]
fn inputs_are_consumed_in_order() {
    let r = run_program(chars(",>,."), vec![65, 66], OutputMode::Stdout, FUEL);
    assert_eq!(r, output("B"));
}

#[test]
fn endless_loop_runs_out_of_fuel() {
    let r = run_program(chars("+[]"), Vec::new(), OutputMode::Stdout, 1000);
    assert_eq!(r, RunResult::StillRunning);
}
