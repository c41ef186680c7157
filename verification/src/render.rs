//! The final-output step.
//!
//! A run's result is presented in one of three modes: the bytes written by
//! `.` shown as characters, the tape as a bracketed list of decimal values,
//! or the tape decoded as UTF-8 text.

use vstd::prelude::*;
use vstd::utf8::{valid_utf8, decode_utf8};
use crate::interp::{AState, Outcome, Fatal, Interp, RunStatus, init_state, run_n};

verus! {

/// How the interpreter's results are presented.
#[derive(Clone, Copy, PartialEq, Eq, Structural, Debug)]
pub enum OutputMode {
    /// Each byte written by `.` becomes one character, in program order.
    Stdout,
    /// The final tape as a bracketed, comma-separated list of decimal values.
    TapeDebug,
    /// The final tape decoded as UTF-8 text.
    TapeAscii,
}

/// Everything that can end a run without a result.
#[derive(Clone, Copy, PartialEq, Eq, Structural, Debug)]
pub enum BfError {
    /// The tape pointer would move left of position 0.
    TapeUnderflow,
    /// A bracket-matching scan ran past the boundary of the program.
    UnmatchedBracket,
    /// In `TapeAscii` mode, the final tape is not valid UTF-8.
    InvalidTextEncoding,
}

/// The character for one decimal digit.
pub open spec fn digit_char(d: int) -> char {
    ((48 + d) as u8) as char
}

/// The decimal numeral of a nonnegative number, most significant digit first.
pub open spec fn dec_chars(n: int) -> Seq<char>
    decreases n,
{
    if n < 0 {
        Seq::empty()
    } else if n < 10 {
        seq![digit_char(n)]
    } else {
        dec_chars(n / 10).push(digit_char(n % 10))
    }
}

/// The decimal values of the first `i` tape cells, comma-separated.
pub open spec fn row_chars(t: Seq<u8>, i: int) -> Seq<char>
    decreases i,
{
    if i <= 0 {
        Seq::empty()
    } else if i == 1 {
        dec_chars(t[0] as int)
    } else {
        row_chars(t, i - 1) + seq![',', ' '] + dec_chars(t[i - 1] as int)
    }
}

/// The debug form of the whole tape: every cell as a decimal value,
/// comma-separated, in square brackets.
pub open spec fn tape_debug_chars(t: Seq<u8>) -> Seq<char> {
    seq!['['] + row_chars(t, t.len() as int) + seq![']']
}

/// A byte written by `.`, shown as the character with that code.
pub open spec fn byte_char(b: u8) -> char {
    b as char
}

/// The text shown in `Stdout` mode: each output byte as a character.
pub open spec fn output_chars(out: Seq<u8>) -> Seq<char> {
    out.map_values(|b: u8| byte_char(b))
}

/// The text a finished run presents in the given mode.
pub open spec fn rendered(mode: OutputMode, s: AState, text: Seq<char>) -> bool {
    match mode {
        OutputMode::Stdout => text == output_chars(s.output),
        OutputMode::TapeDebug => text == tape_debug_chars(s.tape),
        OutputMode::TapeAscii => valid_utf8(s.tape) && text == decode_utf8(s.tape),
    }
}

fn digit_to_char(d: u8) -> (c: char)
    requires
        d < 10,
    ensures
        c == digit_char(d as int),
{
    (48 + d) as char
}

/// Append the decimal numeral of one cell value.
fn push_decimal(out: &mut Vec<char>, v: u8)
    ensures
        final(out)@ == old(out)@ + dec_chars(v as int),
{
    let ghost o0 = out@;
    if v < 10 {
        out.push(digit_to_char(v));
        proof {
            assert(out@ =~= o0 + dec_chars(v as int));
        }
    } else if v < 100 {
        out.push(digit_to_char(v / 10));
        out.push(digit_to_char(v % 10));
        proof {
            assert(dec_chars(v as int / 10) == seq![digit_char(v as int / 10)]);
            assert(out@ =~= o0 + dec_chars(v as int));
        }
    } else {
        out.push(digit_to_char(v / 100));
        out.push(digit_to_char((v / 10) % 10));
        out.push(digit_to_char(v % 10));
        proof {
            vstd::arithmetic::div_mod::lemma_div_denominator(v as int, 10, 10);
            assert(v as int / 10 / 10 == v as int / 100);
            assert(dec_chars(v as int / 10) == dec_chars(
                v as int / 100,
            ).push(digit_char(v as int / 10 % 10)));
            assert(out@ =~= o0 + dec_chars(v as int));
        }
    }
}

/// Format the tape as its debug form.
pub fn format_tape(tape: &Vec<u8>) -> (r: Vec<char>)
    ensures
        r@ == tape_debug_chars(tape@),
{
    let mut out: Vec<char> = Vec::new();
    out.push('[');
    let n = tape.len();
    let mut i: usize = 0;
    while i < n
        invariant
            i <= n == tape@.len(),
            out@ == seq!['['] + row_chars(tape@, i as int),
        decreases n - i,
    {
        if i > 0 {
            out.push(',');
            out.push(' ');
        }
        push_decimal(&mut out, tape[i]);
        i = i + 1;
        proof {
            assert(out@ =~= seq!['['] + row_chars(tape@, i as int));
        }
    }
    out.push(']');
    proof {
        assert(out@ =~= tape_debug_chars(tape@));
    }
    out
}

/// Turn the output bytes into the characters `Stdout` mode shows.
pub fn output_to_chars(bytes: &Vec<u8>) -> (r: Vec<char>)
    ensures
        r@ == output_chars(bytes@),
{
    let mut out: Vec<char> = Vec::new();
    let n = bytes.len();
    let mut i: usize = 0;
    while i < n
        invariant
            i <= n == bytes@.len(),
            out@.len() == i,
            forall|k: int| 0 <= k < i ==> out@[k] == byte_char(bytes@[k]),
        decreases n - i,
    {
        let b = bytes[i];
        out.push(b as char);
        i = i + 1;
    }
    proof {
        assert(out@ =~= output_chars(bytes@));
    }
    out
}

/// Relies on String implementing FromIterator over char: collecting the
/// characters of a vector yields the string of exactly those characters, in
/// order.
#[verifier::external_body]
fn chars_to_string(cs: &Vec<char>) -> (r: String)
    ensures
        r@ == cs@,
{
    cs.iter().collect()
}

/// Relies on core::str::from_utf8: it succeeds exactly on valid UTF-8 input
/// and yields the characters those bytes encode (vstd's model of UTF-8).
#[verifier::external_body]
fn utf8_to_string(bytes: &Vec<u8>) -> (r: Option<String>)
    ensures
        r is Some <==> valid_utf8(bytes@),
        r matches Some(s) ==> s@ == decode_utf8(bytes@),
{
    match core::str::from_utf8(bytes.as_slice()) {
        Ok(s) => Some(s.to_string()),
        Err(_) => None,
    }
}

/// The final-output step, run once after the instruction loop ends: the text
/// the finished run presents in the given mode. In `TapeAscii` mode a tape
/// that is not valid UTF-8 is a fatal error.
pub fn render(it: &Interp, mode: OutputMode) -> (r: Result<String, BfError>)
    ensures
        match r {
            Ok(text) => rendered(mode, it.abs(), text@),
            Err(e) => e == BfError::InvalidTextEncoding && mode == OutputMode::TapeAscii
                && !valid_utf8(it.tape@),
        },
{
    match mode {
        OutputMode::Stdout => {
            let cs = output_to_chars(&it.output);
            Ok(chars_to_string(&cs))
        },
        OutputMode::TapeDebug => {
            let cs = format_tape(&it.tape);
            Ok(chars_to_string(&cs))
        },
        OutputMode::TapeAscii => {
            match utf8_to_string(&it.tape) {
                Some(s) => Ok(s),
                None => Err(BfError::InvalidTextEncoding),
            }
        },
    }
}

/// The run halted normally after `n` steps in state `s`.
pub open spec fn halts_within(prog: Seq<char>, input: Seq<u8>, n: nat, s: AState) -> bool {
    run_n(prog, init_state(input), n) == Outcome::Halted(s)
}

/// The run stopped on the fatal condition `f` after `n` steps in state `s`.
pub open spec fn fails_within(prog: Seq<char>, input: Seq<u8>, n: nat, f: Fatal, s: AState) -> bool {
    run_n(prog, init_state(input), n) == Outcome::Failed(f, s)
}

/// What `run_program` returned.
#[derive(PartialEq, Eq, Debug)]
pub enum RunResult {
    /// The program halted; this is the text of the selected mode.
    Output(String),
    /// The step budget ran out before the program halted.
    StillRunning,
    /// The run ended on a fatal condition.
    Error(BfError),
}

/// Interpret a whole program: run it on the given input for at most `fuel`
/// steps and present the result in the given mode. Fatal conditions are
/// reported as errors; a `Done`/`Error` result is pinned by the small-step
/// semantics (`lemma_outcome_stable`: no larger budget changes it).
pub fn run_program(prog: Vec<char>, input: Vec<u8>, mode: OutputMode, fuel: u64) -> (r: RunResult)
    ensures
        match r {
            RunResult::Output(text) => exists|n: nat, s: AState|
                #[trigger] halts_within(prog@, input@, n, s) && n <= fuel && rendered(
                    mode,
                    s,
                    text@,
                ),
            RunResult::StillRunning => run_n(prog@, init_state(input@), fuel as nat) is Running,
            RunResult::Error(e) => match e {
                BfError::TapeUnderflow => exists|n: nat, s: AState|
                    #[trigger] fails_within(prog@, input@, n, Fatal::TapeUnderflow, s) && n <= fuel,
                BfError::UnmatchedBracket => exists|n: nat, s: AState|
                    #[trigger] fails_within(prog@, input@, n, Fatal::UnmatchedBracket, s) && n
                        <= fuel,
                BfError::InvalidTextEncoding => mode == OutputMode::TapeAscii && exists|
                    n: nat,
                    s: AState,
                |
                    #[trigger] halts_within(prog@, input@, n, s) && n <= fuel && !valid_utf8(
                        s.tape,
                    ),
            },
        },
{
    let ghost p0 = prog@;
    let ghost in0 = input@;
    let mut it = Interp::new(prog, input);
    let status = it.run(fuel);
    match status {
        RunStatus::Done => {
            proof {
                let n0 = choose|n: nat|
                    n <= fuel && run_n(p0, init_state(in0), n) == Outcome::Halted(it.abs());
                assert(halts_within(p0, in0, n0, it.abs()));
            }
            match render(&it, mode) {
                Ok(text) => RunResult::Output(text),
                Err(e) => RunResult::Error(e),
            }
        },
        RunStatus::Paused => RunResult::StillRunning,
        RunStatus::Aborted(f) => {
            proof {
                let n0 = choose|n: nat|
                    n <= fuel && run_n(p0, init_state(in0), n) == Outcome::Failed(f, it.abs());
                assert(fails_within(p0, in0, n0, f, it.abs()));
            }
            match f {
                Fatal::TapeUnderflow => RunResult::Error(BfError::TapeUnderflow),
                Fatal::UnmatchedBracket => RunResult::Error(BfError::UnmatchedBracket),
            }
        },
    }
}

} // verus!


