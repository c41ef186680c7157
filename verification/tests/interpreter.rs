//! The interpreter driven directly: stepping, pausing, resuming, rendering.

use brainfuck::{render, Interp, OutputMode, RunStatus, StepStatus, Fatal};
use brainfuck::{inc_cell, dec_cell};

fn chars(s: &str) -> Vec<char> {
    s.chars().collect()
}

#[test]
fn cell_arithmetic_wraps() {
    assert_eq!(inc_cell(255), 0);
    assert_eq!(inc_cell(0), 1);
    assert_eq!(dec_cell(0), 255);
    assert_eq!(dec_cell(255), 254);
    let mut v: u8 = 7;
    for _ in 0..256 {
        v = inc_cell(v);
    }
    assert_eq!(v, 7);
    for _ in 0..256 {
        v = dec_cell(v);
    }
    assert_eq!(v, 7);
}

#[test]
fn new_interpreter_starts_on_one_zero_cell() {
    let it = Interp::new(chars("+"), Vec::new());
    assert_eq!(it.tape, vec![0]);
    assert_eq!(it.tp, 0);
    assert_eq!(it.ip, 0);
    assert_eq!(it.pos, 0);
    assert!(it.output.is_empty());
}

#[test]
fn single_steps_follow_the_instructions() {
    let mut it = Interp::new(chars("+>-"), Vec::new());
    assert_eq!(it.step_once(), StepStatus::Progressed);
    assert_eq!(it.tape, vec![1]);
    assert_eq!(it.step_once(), StepStatus::Progressed);
    assert_eq!(it.tape, vec![1, 0]);
    assert_eq!(it.tp, 1);
    assert_eq!(it.step_once(), StepStatus::Progressed);
    assert_eq!(it.tape, vec![1, 255]);
    assert_eq!(it.ip, 3);
}

#[test]
fn step_reports_exhausted_input() {
    let mut it = Interp::new(chars(","), Vec::new());
    assert_eq!(it.step_once(), StepStatus::InputExhausted);
    assert_eq!(it.ip, 0);
}

#[test]
fn step_reports_tape_underflow() {
    let mut it = Interp::new(chars("<"), Vec::new());
    assert_eq!(it.step_once(), StepStatus::Aborted(Fatal::TapeUnderflow));
}

#[test]
fn zero_fuel_pauses_immediately() {
    let mut it = Interp::new(chars("+++."), Vec::new());
    assert_eq!(it.run(0), RunStatus::Paused);
    assert_eq!(it.ip, 0);
}

#[test]
fn paused_run_resumes_where_it_stopped() {
    let mut it = Interp::new(chars("+++."), Vec::new());
    assert_eq!(it.run(2), RunStatus::Paused);
    assert_eq!(it.ip, 2);
    assert_eq!(it.run(100), RunStatus::Done);
    let text = render(&it, OutputMode::Stdout).unwrap();
    assert_eq!(text, "\u{3}");
}

#[test]
fn run_aborts_on_unmatched_bracket() {
    let mut it = Interp::new(chars("++]"), Vec::new());
    assert_eq!(it.run(100), RunStatus::Aborted(Fatal::UnmatchedBracket));
    assert_eq!(it.ip, 2);
}

#[test]
fn render_tape_debug_lists_every_cell() {
    let mut it = Interp::new(chars("+>++>+++"), Vec::new());
    assert_eq!(it.run(100), RunStatus::Done);
    assert_eq!(render(&it, OutputMode::TapeDebug).unwrap(), "[1, 2, 3, 0]");
}

#[test]
fn render_three_digit_cells() {
    let mut it = Interp::new(chars("-->--"), Vec::new());
    assert_eq!(it.run(100), RunStatus::Done);
    assert_eq!(render(&it, OutputMode::TapeDebug).unwrap(), "[254, 254]");
}

#[test]
fn dot_collects_output_in_program_order() {
    let mut it = Interp::new(chars("+.+.+."), Vec::new());
    assert_eq!(it.run(100), RunStatus::Done);
    assert_eq!(it.output, vec![1, 2, 3]);
    assert_eq!(render(&it, OutputMode::Stdout).unwrap(), "\u{1}\u{2}\u{3}");
}
