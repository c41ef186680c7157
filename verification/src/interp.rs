//! The interpreter.
//!
//! `AState` is the mathematical state of an execution: the tape, the two
//! pointers, the input still to be consumed, and the output produced so far.
//! `step` gives the effect of the instruction under the instruction pointer,
//! and `run_n` iterates it for a bounded number of steps. The executable
//! `Interp` follows this semantics step for step.

use vstd::prelude::*;
use crate::cell::{spec_inc_cell, spec_dec_cell, inc_cell, dec_cell};
use crate::scan::{
    scan_fwd, scan_bwd, find_match_fwd, find_match_bwd, lemma_scan_fwd_in_range,
    lemma_scan_bwd_in_range, lemma_bracket_match_symmetric,
};

verus! {

/// A condition the interpreter cannot recover from; execution stops at once.
#[derive(Clone, Copy, PartialEq, Eq, Structural, Debug)]
pub enum Fatal {
    /// The tape pointer would move left of position 0.
    TapeUnderflow,
    /// A bracket-matching scan ran past the boundary of the program.
    UnmatchedBracket,
}

/// The mathematical state of an execution.
#[verifier::ext_equal]
pub ghost struct AState {
    /// The tape cells, leftmost first.
    pub tape: Seq<u8>,
    /// The tape pointer: the index of the active cell.
    pub tp: int,
    /// The instruction pointer: the index of the next instruction.
    pub ip: int,
    /// The input bytes not yet consumed.
    pub input: Seq<u8>,
    /// The bytes written by `.` so far.
    pub output: Seq<u8>,
}

/// The result of one instruction.
pub ghost enum StepRes {
    /// Execution continues in this state.
    Next(AState),
    /// `,` found the input exhausted; execution ends normally, unchanged.
    NoInput,
    /// A fatal condition.
    Fail(Fatal),
}

/// Where an execution has got to after a bounded number of steps.
pub ghost enum Outcome {
    /// The step budget ran out in this state.
    Running(AState),
    /// Execution ended normally in this state.
    Halted(AState),
    /// Execution stopped on a fatal condition in this state.
    Failed(Fatal, AState),
}

/// Whether a character is one of the eight instructions; every other
/// character is a comment.
pub open spec fn is_instr(c: char) -> bool {
    c == '+' || c == '-' || c == '>' || c == '<' || c == '.' || c == ',' || c == '[' || c == ']'
}

/// The state in which every execution begins: a one-cell zeroed tape, both
/// pointers at 0, the whole input ahead, no output.
pub open spec fn init_state(input: Seq<u8>) -> AState {
    AState { tape: seq![0u8], tp: 0, ip: 0, input: input, output: Seq::empty() }
}

/// A state the interpreter can actually be in: the tape is never empty, the
/// tape pointer is on the tape, and the instruction pointer is within the
/// program or just past its end.
pub open spec fn state_wf(prog: Seq<char>, s: AState) -> bool {
    &&& 1 <= s.tape.len()
    &&& 0 <= s.tp < s.tape.len()
    &&& 0 <= s.ip <= prog.len()
}

/// The effect of the single instruction under the instruction pointer.
pub open spec fn step(prog: Seq<char>, s: AState) -> StepRes {
    let c = prog[s.ip];
    if c == '+' {
        StepRes::Next(
            AState {
                tape: s.tape.update(s.tp, spec_inc_cell(s.tape[s.tp])),
                tp: s.tp,
                ip: s.ip + 1,
                input: s.input,
                output: s.output,
            },
        )
    } else if c == '-' {
        StepRes::Next(
            AState {
                tape: s.tape.update(s.tp, spec_dec_cell(s.tape[s.tp])),
                tp: s.tp,
                ip: s.ip + 1,
                input: s.input,
                output: s.output,
            },
        )
    } else if c == '>' {
        if s.tp + 1 == s.tape.len() {
            StepRes::Next(
                AState {
                    tape: s.tape + Seq::new(s.tape.len(), |k: int| 0u8),
                    tp: s.tp + 1,
                    ip: s.ip + 1,
                    input: s.input,
                    output: s.output,
                },
            )
        } else {
            StepRes::Next(
                AState { tape: s.tape, tp: s.tp + 1, ip: s.ip + 1, input: s.input, output: s.output },
            )
        }
    } else if c == '<' {
        if s.tp == 0 {
            StepRes::Fail(Fatal::TapeUnderflow)
        } else {
            StepRes::Next(
                AState { tape: s.tape, tp: s.tp - 1, ip: s.ip + 1, input: s.input, output: s.output },
            )
        }
    } else if c == '.' {
        StepRes::Next(
            AState {
                tape: s.tape,
                tp: s.tp,
                ip: s.ip + 1,
                input: s.input,
                output: s.output.push(s.tape[s.tp]),
            },
        )
    } else if c == ',' {
        if s.input.len() == 0 {
            StepRes::NoInput
        } else {
            StepRes::Next(
                AState {
                    tape: s.tape.update(s.tp, s.input[0]),
                    tp: s.tp,
                    ip: s.ip + 1,
                    input: s.input.skip(1),
                    output: s.output,
                },
            )
        }
    } else if c == '[' {
        if s.tape[s.tp] == 0 {
            match scan_fwd(prog, s.ip + 1, 1) {
                Some(j) => StepRes::Next(
                    AState { tape: s.tape, tp: s.tp, ip: j + 1, input: s.input, output: s.output },
                ),
                None => StepRes::Fail(Fatal::UnmatchedBracket),
            }
        } else {
            StepRes::Next(
                AState { tape: s.tape, tp: s.tp, ip: s.ip + 1, input: s.input, output: s.output },
            )
        }
    } else if c == ']' {
        if s.tape[s.tp] != 0 {
            match scan_bwd(prog, s.ip - 1, 1) {
                Some(j) => StepRes::Next(
                    AState { tape: s.tape, tp: s.tp, ip: j + 1, input: s.input, output: s.output },
                ),
                None => StepRes::Fail(Fatal::UnmatchedBracket),
            }
        } else {
            StepRes::Next(
                AState { tape: s.tape, tp: s.tp, ip: s.ip + 1, input: s.input, output: s.output },
            )
        }
    } else {
        StepRes::Next(
            AState { tape: s.tape, tp: s.tp, ip: s.ip + 1, input: s.input, output: s.output },
        )
    }
}

/// Run for at most `n` steps from `s`. Execution halts normally when the
/// instruction pointer passes the end of the program or `,` finds the input
/// exhausted; it fails on a fatal condition; otherwise, after `n` steps, it
/// is still running.
pub open spec fn run_n(prog: Seq<char>, s: AState, n: nat) -> Outcome
    decreases n,
{
    if !(0 <= s.ip < prog.len()) {
        Outcome::Halted(s)
    } else if n == 0 {
        Outcome::Running(s)
    } else {
        match step(prog, s) {
            StepRes::Next(s2) => run_n(prog, s2, (n - 1) as nat),
            StepRes::NoInput => Outcome::Halted(s),
            StepRes::Fail(f) => Outcome::Failed(f, s),
        }
    }
}

/// Taking one more step from a still-running state continues the run: a
/// budget of `n + 1` behaves like the budget `n` followed by one step.
pub proof fn lemma_run_n_extend(prog: Seq<char>, s: AState, n: nat, c: AState)
    requires
        run_n(prog, s, n) == Outcome::Running(c),
    ensures
        run_n(prog, s, n + 1) == run_n(prog, c, 1),
    decreases n,
{
    if n > 0 {
        match step(prog, s) {
            StepRes::Next(s2) => {
                lemma_run_n_extend(prog, s2, (n - 1) as nat, c);
            },
            StepRes::NoInput => {},
            StepRes::Fail(f) => {},
        }
    }
}

/// A halted or failed outcome is stable: giving the run a larger step budget
/// does not change it. Together with `run_n` being a function, this pins the
/// result of an execution: any two finished outcomes of the same program and
/// input agree.
pub proof fn lemma_outcome_stable(prog: Seq<char>, s: AState, n1: nat, n2: nat)
    requires
        n1 <= n2,
        !(run_n(prog, s, n1) is Running),
    ensures
        run_n(prog, s, n2) == run_n(prog, s, n1),
    decreases n1,
{
    if 0 <= s.ip < prog.len() {
        match step(prog, s) {
            StepRes::Next(s2) => {
                lemma_outcome_stable(prog, s2, (n1 - 1) as nat, (n2 - 1) as nat);
            },
            StepRes::NoInput => {},
            StepRes::Fail(f) => {},
        }
    }
}

/// One step preserves well-formedness, and the tape only ever grows, by
/// doubling: after the step the tape is the same length or twice as long,
/// and the tape pointer is still a valid index.
pub proof fn lemma_step_tape_growth(prog: Seq<char>, s: AState)
    requires
        state_wf(prog, s),
        s.ip < prog.len(),
    ensures
        match step(prog, s) {
            StepRes::Next(s2) => state_wf(prog, s2) && s2.tape.len() >= s.tape.len() && (
            s2.tape.len() == s.tape.len() || s2.tape.len() == 2 * s.tape.len()),
            StepRes::NoInput => true,
            StepRes::Fail(f) => true,
        },
{
    let c = prog[s.ip];
    if c == '[' {
        if s.tape[s.tp] == 0 {
            match scan_fwd(prog, s.ip + 1, 1) {
                Some(j) => {
                    lemma_scan_fwd_in_range(prog, s.ip + 1, 1, j);
                },
                None => {},
            }
        }
    } else if c == ']' {
        if s.tape[s.tp] != 0 {
            match scan_bwd(prog, s.ip - 1, 1) {
                Some(j) => {
                    lemma_scan_bwd_in_range(prog, s.ip - 1, 1, j);
                },
                None => {},
            }
        }
    }
}

/// Over any number of steps, a well-formed state stays well-formed and the
/// tape never shrinks: in particular the tape pointer is a valid index after
/// any sequence of moves.
pub proof fn lemma_run_n_tape_monotonic(prog: Seq<char>, s: AState, n: nat)
    requires
        state_wf(prog, s),
    ensures
        match run_n(prog, s, n) {
            Outcome::Running(s2) => state_wf(prog, s2) && s2.tape.len() >= s.tape.len(),
            Outcome::Halted(s2) => state_wf(prog, s2) && s2.tape.len() >= s.tape.len(),
            Outcome::Failed(f, s2) => state_wf(prog, s2) && s2.tape.len() >= s.tape.len(),
        },
    decreases n,
{
    if 0 <= s.ip < prog.len() && n > 0 {
        lemma_step_tape_growth(prog, s);
        match step(prog, s) {
            StepRes::Next(s2) => {
                lemma_run_n_tape_monotonic(prog, s2, (n - 1) as nat);
            },
            StepRes::NoInput => {},
            StepRes::Fail(f) => {},
        }
    }
}

/// Executing `[` on a zero cell jumps just past the matching `]`, and
/// executing that `]` on a nonzero cell jumps back just past the original
/// `[`: the two jumps land on consistent instruction boundaries, whatever
/// the nesting depth between them.
pub proof fn lemma_bracket_round_trip(prog: Seq<char>, s1: AState, s2: AState, j: int)
    requires
        0 <= s1.ip < prog.len(),
        prog[s1.ip] == '[',
        0 <= s1.tp < s1.tape.len(),
        s1.tape[s1.tp] == 0,
        scan_fwd(prog, s1.ip + 1, 1) == Some(j),
        s2.ip == j,
        0 <= s2.tp < s2.tape.len(),
        s2.tape[s2.tp] != 0,
    ensures
        s1.ip < j < prog.len(),
        prog[j] == ']',
        (step(prog, s1) matches StepRes::Next(t1) && t1.ip == j + 1),
        (step(prog, s2) matches StepRes::Next(t2) && t2.ip == s1.ip + 1),
{
    lemma_bracket_match_symmetric(prog, s1.ip, j);
}

/// What one executed instruction reported.
#[derive(Clone, Copy, PartialEq, Eq, Structural, Debug)]
pub enum StepStatus {
    /// The instruction ran; execution continues.
    Progressed,
    /// `,` found the input exhausted; execution ends normally.
    InputExhausted,
    /// A fatal condition; execution stops at once.
    Aborted(Fatal),
}

/// How a bounded run ended.
#[derive(Clone, Copy, PartialEq, Eq, Structural, Debug)]
pub enum RunStatus {
    /// Execution halted normally.
    Done,
    /// The step budget ran out first.
    Paused,
    /// A fatal condition; execution stopped at once.
    Aborted(Fatal),
}

/// The executable interpreter: the program, the tape, the two pointers, the
/// input with a cursor marking how much is consumed, and the output written
/// so far.
pub struct Interp {
    /// The program text. Never mutated.
    pub prog: Vec<char>,
    /// The tape cells.
    pub tape: Vec<u8>,
    /// The tape pointer.
    pub tp: usize,
    /// The instruction pointer.
    pub ip: usize,
    /// The whole input stream. Never mutated.
    pub input: Vec<u8>,
    /// How many input bytes `,` has consumed.
    pub pos: usize,
    /// The bytes written by `.` so far.
    pub output: Vec<u8>,
}

/// Extend the tape to twice its length, zero-filling the new cells.
fn grow_tape(tape: &mut Vec<u8>)
    ensures
        final(tape)@ == old(tape)@ + Seq::new(old(tape)@.len(), |k: int| 0u8),
{
    let ghost t0 = tape@;
    let n = tape.len();
    let mut k: usize = 0;
    while k < n
        invariant
            k <= n == t0.len(),
            tape@ == t0 + Seq::new(k as nat, |t: int| 0u8),
        decreases n - k,
    {
        tape.push(0);
        k = k + 1;
        proof {
            assert(tape@ =~= t0 + Seq::new(k as nat, |t: int| 0u8));
        }
    }
}

impl Interp {
    /// The mathematical state this interpreter is in.
    pub open spec fn abs(self) -> AState {
        AState {
            tape: self.tape@,
            tp: self.tp as int,
            ip: self.ip as int,
            input: self.input@.skip(self.pos as int),
            output: self.output@,
        }
    }

    /// The interpreter's own invariant: its state is well formed and the
    /// input cursor is within the input.
    pub open spec fn wf(self) -> bool {
        &&& state_wf(self.prog@, self.abs())
        &&& self.pos <= self.input@.len()
    }

    /// A fresh interpreter for the given program and input, in the initial
    /// state: a one-cell zeroed tape, both pointers at 0, no output.
    pub fn new(prog: Vec<char>, input: Vec<u8>) -> (r: Interp)
        ensures
            r.wf(),
            r.prog@ == prog@,
            r.abs() == init_state(input@),
    {
        let mut tape: Vec<u8> = Vec::new();
        tape.push(0);
        let r = Interp { prog, tape, tp: 0, ip: 0, input, pos: 0, output: Vec::new() };
        proof {
            assert(r.abs() =~= init_state(r.input@));
        }
        r
    }

    /// Execute the single instruction under the instruction pointer, exactly
    /// as `step` describes it.
    pub fn step_once(&mut self) -> (r: StepStatus)
        requires
            old(self).wf(),
            old(self).ip < old(self).prog@.len(),
        ensures
            final(self).wf(),
            final(self).prog@ == old(self).prog@,
            final(self).input@ == old(self).input@,
            match r {
                StepStatus::Progressed => step(old(self).prog@, old(self).abs())
                    == StepRes::Next(final(self).abs()),
                StepStatus::InputExhausted => step(old(self).prog@, old(self).abs())
                    == StepRes::NoInput && final(self).abs() == old(self).abs(),
                StepStatus::Aborted(f) => step(old(self).prog@, old(self).abs())
                    == StepRes::Fail(f) && final(self).abs() == old(self).abs(),
            },
    {
        proof {
            lemma_step_tape_growth(self.prog@, self.abs());
        }
        // Read the length as a machine word: the jump targets below stay under it.
        let pn = self.prog.len();
        let c = self.prog[self.ip];
        if c == '+' {
            let v = self.tape[self.tp];
            self.tape.set(self.tp, inc_cell(v));
            self.ip = self.ip + 1;
            proof {
                lemma_step_abs_eq(old(self).prog@, old(self).abs(), self.abs());
            }
            StepStatus::Progressed
        } else if c == '-' {
            let v = self.tape[self.tp];
            self.tape.set(self.tp, dec_cell(v));
            self.ip = self.ip + 1;
            proof {
                lemma_step_abs_eq(old(self).prog@, old(self).abs(), self.abs());
            }
            StepStatus::Progressed
        } else if c == '>' {
            let tn = self.tape.len();
            proof {
                assert(self.tp < tn);
            }
            self.tp = self.tp + 1;
            if self.tp == self.tape.len() {
                grow_tape(&mut self.tape);
            }
            self.ip = self.ip + 1;
            proof {
                lemma_step_abs_eq(old(self).prog@, old(self).abs(), self.abs());
            }
            StepStatus::Progressed
        } else if c == '<' {
            if self.tp == 0 {
                StepStatus::Aborted(Fatal::TapeUnderflow)
            } else {
                self.tp = self.tp - 1;
                self.ip = self.ip + 1;
                proof {
                    lemma_step_abs_eq(old(self).prog@, old(self).abs(), self.abs());
                }
                StepStatus::Progressed
            }
        } else if c == '.' {
            let v = self.tape[self.tp];
            self.output.push(v);
            self.ip = self.ip + 1;
            proof {
                lemma_step_abs_eq(old(self).prog@, old(self).abs(), self.abs());
            }
            StepStatus::Progressed
        } else if c == ',' {
            if self.pos < self.input.len() {
                let b = self.input[self.pos];
                self.pos = self.pos + 1;
                self.tape.set(self.tp, b);
                self.ip = self.ip + 1;
                proof {
                    assert(self.abs().input =~= old(self).abs().input.skip(1));
                    assert(old(self).abs().input[0] == b);
                    lemma_step_abs_eq(old(self).prog@, old(self).abs(), self.abs());
                }
                StepStatus::Progressed
            } else {
                proof {
                    assert(old(self).abs().input.len() == 0);
                }
                StepStatus::InputExhausted
            }
        } else if c == '[' {
            let v = self.tape[self.tp];
            if v == 0 {
                match find_match_fwd(&self.prog, self.ip) {
                    Some(j) => {
                        self.ip = j + 1;
                        proof {
                            lemma_step_abs_eq(old(self).prog@, old(self).abs(), self.abs());
                        }
                        StepStatus::Progressed
                    },
                    None => StepStatus::Aborted(Fatal::UnmatchedBracket),
                }
            } else {
                self.ip = self.ip + 1;
                proof {
                    lemma_step_abs_eq(old(self).prog@, old(self).abs(), self.abs());
                }
                StepStatus::Progressed
            }
        } else if c == ']' {
            let v = self.tape[self.tp];
            if v != 0 {
                match find_match_bwd(&self.prog, self.ip) {
                    Some(j) => {
                        self.ip = j + 1;
                        proof {
                            lemma_step_abs_eq(old(self).prog@, old(self).abs(), self.abs());
                        }
                        StepStatus::Progressed
                    },
                    None => StepStatus::Aborted(Fatal::UnmatchedBracket),
                }
            } else {
                self.ip = self.ip + 1;
                proof {
                    lemma_step_abs_eq(old(self).prog@, old(self).abs(), self.abs());
                }
                StepStatus::Progressed
            }
        } else {
            self.ip = self.ip + 1;
            proof {
                lemma_step_abs_eq(old(self).prog@, old(self).abs(), self.abs());
            }
            StepStatus::Progressed
        }
    }

    /// Run for at most `fuel` steps. `Done` and `Aborted` outcomes are final:
    /// by `lemma_outcome_stable`, no larger budget changes them. After
    /// `Paused` the run can be resumed by calling `run` again.
    pub fn run(&mut self, fuel: u64) -> (r: RunStatus)
        requires
            old(self).wf(),
        ensures
            final(self).wf(),
            final(self).prog@ == old(self).prog@,
            final(self).input@ == old(self).input@,
            match r {
                RunStatus::Done => exists|n: nat|
                    n <= fuel && run_n(old(self).prog@, old(self).abs(), n) == Outcome::Halted(
                        final(self).abs(),
                    ),
                RunStatus::Paused => run_n(old(self).prog@, old(self).abs(), fuel as nat)
                    == Outcome::Running(final(self).abs()),
                RunStatus::Aborted(f) => exists|n: nat|
                    n <= fuel && run_n(old(self).prog@, old(self).abs(), n) == Outcome::Failed(
                        f,
                        final(self).abs(),
                    ),
            },
    {
        let ghost p0 = self.prog@;
        let ghost s0 = self.abs();
        let mut used: u64 = 0;
        while used < fuel && self.ip < self.prog.len()
            invariant
                self.wf(),
                self.prog@ == p0,
                p0 == old(self).prog@,
                self.input@ == old(self).input@,
                used <= fuel,
                s0 == old(self).abs(),
                run_n(p0, s0, used as nat) == (if self.abs().ip < p0.len() {
                    Outcome::Running(self.abs())
                } else {
                    Outcome::Halted(self.abs())
                }),
            decreases fuel - used,
        {
            let ghost cur = self.abs();
            let st = self.step_once();
            proof {
                lemma_run_n_extend(p0, s0, used as nat, cur);
            }
            match st {
                StepStatus::Progressed => {
                    proof {
                        assert(step(p0, cur) == StepRes::Next(self.abs()));
                        assert(run_n(p0, cur, 1) == run_n(p0, self.abs(), 0));
                    }
                    used = used + 1;
                },
                StepStatus::InputExhausted => {
                    proof {
                        assert(run_n(p0, cur, 1) == Outcome::Halted(cur));
                        assert(run_n(p0, s0, (used + 1) as nat) == Outcome::Halted(self.abs()));
                    }
                    return RunStatus::Done;
                },
                StepStatus::Aborted(f) => {
                    proof {
                        assert(run_n(p0, cur, 1) == Outcome::Failed(f, cur));
                        assert(run_n(p0, s0, (used + 1) as nat) == Outcome::Failed(f, self.abs()));
                    }
                    return RunStatus::Aborted(f);
                },
            }
        }
        if self.ip >= self.prog.len() {
            proof {
                assert(run_n(p0, s0, used as nat) == Outcome::Halted(self.abs()));
            }
            RunStatus::Done
        } else {
            RunStatus::Paused
        }
    }
}

/// When the state after an instruction matches what `step` prescribes, the
/// step relation holds of it; stated once so each instruction arm can appeal
/// to it with the concrete new state.
proof fn lemma_step_abs_eq(prog: Seq<char>, s: AState, s2: AState)
    requires
        step(prog, s) matches StepRes::Next(t) && t =~= s2,
    ensures
        step(prog, s) == StepRes::Next(s2),
{
}

/// A program consisting solely of comment characters.
pub open spec fn comments_only(prog: Seq<char>) -> bool {
    forall|k: int| 0 <= k < prog.len() ==> !is_instr(#[trigger] prog[k])
}

proof fn lemma_comments_run(prog: Seq<char>, s: AState)
    requires
        comments_only(prog),
        0 <= s.ip <= prog.len(),
    ensures
        run_n(prog, s, (prog.len() - s.ip) as nat) == Outcome::Halted(
            AState { tape: s.tape, tp: s.tp, ip: prog.len() as int, input: s.input, output: s.output },
        ),
    decreases prog.len() - s.ip,
{
    if s.ip == prog.len() {
        assert(s =~= AState {
            tape: s.tape,
            tp: s.tp,
            ip: prog.len() as int,
            input: s.input,
            output: s.output,
        });
    } else {
        assert(!is_instr(prog[s.ip]));
        let s2 = AState { tape: s.tape, tp: s.tp, ip: s.ip + 1, input: s.input, output: s.output };
        assert(step(prog, s) == StepRes::Next(s2));
        lemma_comments_run(prog, s2);
    }
}

/// A program of only comment characters executes to completion, for any
/// input: within as many steps as it has characters it halts normally, with
/// no output, the tape and pointers untouched, and the input unconsumed.
pub proof fn lemma_comment_program_completes(prog: Seq<char>, input: Seq<u8>)
    requires
        comments_only(prog),
    ensures
        run_n(prog, init_state(input), prog.len()) == Outcome::Halted(
            AState {
                tape: seq![0u8],
                tp: 0,
                ip: prog.len() as int,
                input: input,
                output: Seq::empty(),
            },
        ),
{
    lemma_comments_run(prog, init_state(input));
}

} // verus!
