//! The execution engine: a fixed-size circular byte tape, a data
//! pointer, and an instruction pointer walking a built instruction
//! sequence.
//!
//! Cell arithmetic wraps at the byte boundary and data-pointer movement
//! wraps at the tape boundary; neither is ever an error.  A loop
//! instruction's embedded target is the exact index of the matching
//! bracket's instruction, and the instruction pointer moves one past it
//! on a taken jump.  When the input source is exhausted, an input
//! instruction stores zero.

use vstd::prelude::*;

use crate::program::BuildLoopMapError;
use crate::program::Instruction;
use crate::program::build_instructions;
use crate::program::build_loop_map;
use crate::program::build_loop_map_result;
use crate::program::filter_code;
use crate::program::has_stray_close;
use crate::program::instr_at;
use crate::program::instrs_spec;
use crate::program::lemma_loop_map_involution;
use crate::program::lemma_well_nested_brackets_mapped;
use crate::program::loop_map_spec;
use crate::program::stray_close_at;
use crate::program::well_nested;

verus! {

/// Number of cells on the tape.
pub const TAPE_LEN: usize = 30000;

/// A byte incremented with wraparound: 255 + 1 wraps to 0.
pub open spec fn inc_cell(b: u8) -> u8 {
    if b == 255 {
        0
    } else {
        (b + 1) as u8
    }
}

/// A byte decremented with wraparound: 0 - 1 wraps to 255.
pub open spec fn dec_cell(b: u8) -> u8 {
    if b == 0 {
        255
    } else {
        (b - 1) as u8
    }
}

/// The data pointer one step to the right, wrapping at the tape end.
pub open spec fn right_of(dp: int) -> int {
    if dp == TAPE_LEN as int - 1 {
        0
    } else {
        dp + 1
    }
}

/// The data pointer one step to the left, wrapping at cell 0.
pub open spec fn left_of(dp: int) -> int {
    if dp == 0 {
        TAPE_LEN as int - 1
    } else {
        dp - 1
    }
}

/// The complete observable state of a running program: instruction
/// pointer, data pointer, tape contents, how much of the input source
/// has been consumed, and the output emitted so far.
#[verifier::ext_equal]
pub ghost struct ExecState {
    pub ip: int,
    pub dp: int,
    pub tape: Seq<u8>,
    pub in_pos: int,
    pub out: Seq<u8>,
}

/// The instruction at `ip` is the halt sentinel.
pub open spec fn halted_at(instrs: Seq<Instruction>, ip: int) -> bool {
    instrs[ip] is Halt
}

/// One fetch-apply-advance cycle of the engine: the effect of the
/// instruction at `s.ip` on the state, reading input from `input`.
/// The halt sentinel changes nothing.
pub open spec fn step_state(instrs: Seq<Instruction>, input: Seq<u8>, s: ExecState) -> ExecState {
    let cell = s.tape[s.dp];
    match instrs[s.ip] {
        Instruction::Increment => ExecState {
            ip: s.ip + 1,
            tape: s.tape.update(s.dp, inc_cell(cell)),
            ..s
        },
        Instruction::Decrement => ExecState {
            ip: s.ip + 1,
            tape: s.tape.update(s.dp, dec_cell(cell)),
            ..s
        },
        Instruction::MoveRight => ExecState { ip: s.ip + 1, dp: right_of(s.dp), ..s },
        Instruction::MoveLeft => ExecState { ip: s.ip + 1, dp: left_of(s.dp), ..s },
        Instruction::StartLoop(t) => if cell == 0 {
            ExecState { ip: t as int + 1, ..s }
        } else {
            ExecState { ip: s.ip + 1, ..s }
        },
        Instruction::EndLoop(t) => if cell != 0 {
            ExecState { ip: t as int + 1, ..s }
        } else {
            ExecState { ip: s.ip + 1, ..s }
        },
        Instruction::Output => ExecState { ip: s.ip + 1, out: s.out.push(cell), ..s },
        Instruction::Input => if s.in_pos < input.len() {
            ExecState {
                ip: s.ip + 1,
                tape: s.tape.update(s.dp, input[s.in_pos]),
                in_pos: s.in_pos + 1,
                ..s
            }
        } else {
            ExecState { ip: s.ip + 1, tape: s.tape.update(s.dp, 0u8), ..s }
        },
        Instruction::Halt => s,
    }
}

/// The state after `n` fetch-apply-advance cycles from `s`.
pub open spec fn run_n(instrs: Seq<Instruction>, input: Seq<u8>, s: ExecState, n: nat) -> ExecState
    decreases n,
{
    if n == 0 {
        s
    } else {
        step_state(instrs, input, run_n(instrs, input, s, (n - 1) as nat))
    }
}

/// A byte incremented `n` times with wraparound.
pub open spec fn iter_inc(b: u8, n: nat) -> u8
    decreases n,
{
    if n == 0 {
        b
    } else {
        inc_cell(iter_inc(b, (n - 1) as nat))
    }
}

/// A byte decremented `n` times with wraparound.
pub open spec fn iter_dec(b: u8, n: nat) -> u8
    decreases n,
{
    if n == 0 {
        b
    } else {
        dec_cell(iter_dec(b, (n - 1) as nat))
    }
}

proof fn lemma_iter_inc_value(b: u8, n: nat)
    requires
        n <= 256,
    ensures
        iter_inc(b, n) as int == if b + n < 256 {
            b + n
        } else {
            b + n - 256
        },
    decreases n,
{
    if n > 0 {
        lemma_iter_inc_value(b, (n - 1) as nat);
    }
}

proof fn lemma_iter_dec_value(b: u8, n: nat)
    requires
        n <= 256,
    ensures
        iter_dec(b, n) as int == if n <= b {
            b - n
        } else {
            b + 256 - n
        },
    decreases n,
{
    if n > 0 {
        lemma_iter_dec_value(b, (n - 1) as nat);
    }
}

/// Wraparound law: incrementing a cell 256 times returns it to its
/// original value.
pub proof fn lemma_increment_wraps(b: u8)
    ensures
        iter_inc(b, 256) == b,
{
    lemma_iter_inc_value(b, 256);
}

/// Wraparound law: decrementing a cell 256 times returns it to its
/// original value.
pub proof fn lemma_decrement_wraps(b: u8)
    ensures
        iter_dec(b, 256) == b,
{
    lemma_iter_dec_value(b, 256);
}

/// Circular law: a move-right executed on the last tape cell lands the
/// data pointer on cell 0, and a move-left executed on cell 0 lands it
/// on the last cell.  Everything else in the state is untouched.
pub proof fn lemma_pointer_wraps(instrs: Seq<Instruction>, input: Seq<u8>, s: ExecState)
    requires
        0 <= s.ip < instrs.len(),
    ensures
        instrs[s.ip] is MoveRight && s.dp == TAPE_LEN as int - 1 ==> step_state(instrs, input, s)
            == (ExecState { ip: s.ip + 1, dp: 0, ..s }),
        instrs[s.ip] is MoveLeft && s.dp == 0 ==> step_state(instrs, input, s) == (ExecState {
            ip: s.ip + 1,
            dp: TAPE_LEN as int - 1,
            ..s
        }),
{
}

/// A loop whose guard cell is zero is never entered: stepping a
/// loop-open on a zero current cell moves the instruction pointer to
/// just past the matching close and has no other effect.
pub proof fn lemma_zero_loop_skipped(instrs: Seq<Instruction>, input: Seq<u8>, s: ExecState, t: usize)
    requires
        0 <= s.ip < instrs.len(),
        instrs[s.ip] == Instruction::StartLoop(t),
        0 <= s.dp < s.tape.len(),
        s.tape[s.dp] == 0,
    ensures
        step_state(instrs, input, s) == (ExecState { ip: t as int + 1, ..s }),
{
}

/// A jump target that keeps the instruction pointer in bounds: one past
/// it is still a valid index.
pub open spec fn target_ok(ins: Instruction, len: int) -> bool {
    match ins {
        Instruction::StartLoop(t) => (t as int) < len - 1,
        Instruction::EndLoop(t) => (t as int) < len - 1,
        _ => true,
    }
}

/// The all-zero tape every program starts from.
pub open spec fn initial_tape() -> Seq<u8> {
    Seq::new(TAPE_LEN as nat, |i: int| 0u8)
}

/// Failure to construct an interpreter; the only cause is a structural
/// error while resolving loops.
#[derive(Debug, PartialEq, Eq)]
pub enum NewInterpreterError {
    BuildLoopMap(BuildLoopMapError),
}

/// The execution engine: a built instruction sequence, the two pointers,
/// and the tape.  One instance exclusively owns its tape and instruction
/// sequence for a whole run.
pub struct Interpreter {
    pub instructions: Vec<Instruction>,
    pub instruction_pointer: usize,
    pub data_pointer: usize,
    pub tape: Vec<u8>,
}

impl Interpreter {
    /// The observable state, given how much input has been consumed and
    /// what has been output so far (both live outside the engine).
    pub open spec fn state(self, in_pos: int, out: Seq<u8>) -> ExecState {
        ExecState {
            ip: self.instruction_pointer as int,
            dp: self.data_pointer as int,
            tape: self.tape@,
            in_pos: in_pos,
            out: out,
        }
    }

    /// Well-formedness: pointers in bounds, the tape at its fixed
    /// length, the halt sentinel in place, and every jump target at
    /// least one instruction short of the end.  Constructors establish
    /// it and stepping preserves it.
    pub open spec fn wf(self) -> bool {
        &&& self.tape@.len() == TAPE_LEN as int
        &&& (self.data_pointer as int) < TAPE_LEN as int
        &&& 0 < self.instructions@.len()
        &&& (self.instruction_pointer as int) < self.instructions@.len()
        &&& self.instructions@.last() is Halt
        &&& forall|i: int|
            0 <= i < self.instructions@.len() ==> target_ok(
                #[trigger] self.instructions@[i],
                self.instructions@.len() as int,
            )
    }

    /// Build a ready-to-run program from source text: resolve the loops,
    /// translate the symbols, and start with both pointers at zero on an
    /// all-zero tape.  Fails exactly on the structural errors the loop
    /// resolver reports.
    pub fn new(code: &str) -> (r: Result<Interpreter, NewInterpreterError>)
        ensures
            ({
                let f = filter_code(code@);
                match r {
                    Ok(it) => {
                        &&& well_nested(f)
                        &&& it.wf()
                        &&& it.instructions@ == instrs_spec(f, loop_map_spec(f))
                        &&& it.instruction_pointer == 0
                        &&& it.data_pointer == 0
                        &&& it.tape@ == initial_tape()
                    },
                    Err(NewInterpreterError::BuildLoopMap(e)) => {
                        &&& !well_nested(f)
                        &&& build_loop_map_result(f, Err(e))
                    },
                }
            }),
    {
        let ghost f = filter_code(code@);
        let loops = match build_loop_map(code) {
            Ok(m) => m,
            Err(e) => {
                proof {
                    if let BuildLoopMapError::StrayClose(i) = e {
                        assert(stray_close_at(f, i as int));
                        assert(has_stray_close(f));
                    }
                }
                return Err(NewInterpreterError::BuildLoopMap(e));
            },
        };
        proof {
            lemma_well_nested_brackets_mapped(f);
        }
        let instructions = build_instructions(code, &loops);
        let mut tape: Vec<u8> = Vec::new();
        while tape.len() < TAPE_LEN
            invariant
                tape@.len() <= TAPE_LEN as int,
                forall|j: int| 0 <= j < tape@.len() ==> tape@[j] == 0u8,
            decreases TAPE_LEN as int - tape@.len(),
        {
            tape.push(0);
        }
        proof {
            assert(tape@ =~= initial_tape());
        }
        let it = Interpreter { instructions, instruction_pointer: 0, data_pointer: 0, tape };
        proof {
            lemma_loop_map_involution(f);
            let instrs = it.instructions@;
            let len = instrs.len() as int;
            assert(instrs.last() is Halt);
            assert forall|i: int| 0 <= i < len implies target_ok(#[trigger] instrs[i], len) by {
                if i < len - 1 {
                    assert(instrs[i] == instr_at(f, loop_map_spec(f), i));
                }
            }
        }
        Ok(it)
    }

    /// Advance exactly one instruction, reading input bytes from
    /// `input[*in_pos]` (or storing zero once the input is exhausted)
    /// and appending output bytes to `output`.  Returns whether the
    /// program is still running: `false` exactly when the fetched
    /// instruction was the halt sentinel, in which case nothing changes.
    pub fn step(&mut self, input: &Vec<u8>, in_pos: &mut usize, output: &mut Vec<u8>) -> (running:
        bool)
        requires
            old(self).wf(),
        ensures
            final(self).wf(),
            final(self).instructions@ == old(self).instructions@,
            final(self).state(*final(in_pos) as int, final(output)@) == step_state(
                old(self).instructions@,
                input@,
                old(self).state(*old(in_pos) as int, old(output)@),
            ),
            running == !halted_at(old(self).instructions@, old(self).instruction_pointer as int),
    {
        let ghost pre = old(self).state(*old(in_pos) as int, old(output)@);
        let ghost instrs = self.instructions@;
        let n_instr = self.instructions.len();
        let ins = self.instructions[self.instruction_pointer];
        proof {
            assert(instrs[instrs.len() - 1] is Halt);
            if !(ins is Halt) {
                assert(self.instruction_pointer as int != instrs.len() - 1);
                assert(self.instruction_pointer < n_instr - 1);
            }
        }
        match ins {
            Instruction::Halt => {
                proof {
                    assert(self.state(*in_pos as int, output@) =~= step_state(instrs, input@, pre));
                }
                return false;
            },
            Instruction::Increment => {
                let c = self.tape[self.data_pointer];
                self.tape[self.data_pointer] = if c == 255 {
                    0
                } else {
                    c + 1
                };
                self.instruction_pointer = self.instruction_pointer + 1;
            },
            Instruction::Decrement => {
                let c = self.tape[self.data_pointer];
                self.tape[self.data_pointer] = if c == 0 {
                    255
                } else {
                    c - 1
                };
                self.instruction_pointer = self.instruction_pointer + 1;
            },
            Instruction::MoveRight => {
                self.data_pointer = if self.data_pointer == TAPE_LEN - 1 {
                    0
                } else {
                    self.data_pointer + 1
                };
                self.instruction_pointer = self.instruction_pointer + 1;
            },
            Instruction::MoveLeft => {
                self.data_pointer = if self.data_pointer == 0 {
                    TAPE_LEN - 1
                } else {
                    self.data_pointer - 1
                };
                self.instruction_pointer = self.instruction_pointer + 1;
            },
            Instruction::StartLoop(t) => {
                if self.tape[self.data_pointer] == 0 {
                    self.instruction_pointer = t + 1;
                } else {
                    self.instruction_pointer = self.instruction_pointer + 1;
                }
            },
            Instruction::EndLoop(t) => {
                if self.tape[self.data_pointer] != 0 {
                    self.instruction_pointer = t + 1;
                } else {
                    self.instruction_pointer = self.instruction_pointer + 1;
                }
            },
            Instruction::Output => {
                output.push(self.tape[self.data_pointer]);
                self.instruction_pointer = self.instruction_pointer + 1;
            },
            Instruction::Input => {
                if *in_pos < input.len() {
                    self.tape[self.data_pointer] = input[*in_pos];
                    *in_pos = *in_pos + 1;
                } else {
                    self.tape[self.data_pointer] = 0;
                }
                self.instruction_pointer = self.instruction_pointer + 1;
            },
        }
        proof {
            assert(self.state(*in_pos as int, output@) =~= step_state(instrs, input@, pre));
        }
        true
    }

    /// Whether the program has reached the halt sentinel.
    pub fn halted(&self) -> (b: bool)
        requires
            self.wf(),
        ensures
            b == halted_at(self.instructions@, self.instruction_pointer as int),
    {
        matches!(self.instructions[self.instruction_pointer], Instruction::Halt)
    }

    /// Drive execution: repeat the fetch-apply-advance cycle until the
    /// halt sentinel is fetched, or until `max_steps` cycles have been
    /// taken, and return the bytes the program output.  Input bytes are
    /// consumed from the front of `input`; once it is exhausted, input
    /// instructions store zero.  The budget keeps this call total even
    /// on programs that never halt; [`Interpreter::halted`] tells
    /// whether the budget or the halt sentinel ended the run, and a host
    /// that wants to run without any budget drives
    /// [`Interpreter::step`] in a loop of its own.
    pub fn run(&mut self, input: &Vec<u8>, max_steps: usize) -> (output: Vec<u8>)
        requires
            old(self).wf(),
        ensures
            final(self).wf(),
            final(self).instructions@ == old(self).instructions@,
            exists|n: nat|
                #![trigger run_n(old(self).instructions@, input@, old(self).state(0, Seq::empty()), n)]
                {
                    let end = run_n(
                        old(self).instructions@,
                        input@,
                        old(self).state(0, Seq::empty()),
                        n,
                    );
                    &&& n <= max_steps
                    &&& final(self).state(end.in_pos, output@) == end
                    &&& halted_at(old(self).instructions@, end.ip) || n == max_steps
                },
    {
        let mut output: Vec<u8> = Vec::new();
        let mut in_pos: usize = 0;
        let mut steps: usize = 0;
        let ghost instrs = self.instructions@;
        let ghost s0 = self.state(0, Seq::empty());
        let mut running = true;
        while running && steps < max_steps
            invariant
                self.wf(),
                self.instructions@ == instrs,
                steps <= max_steps,
                self.state(in_pos as int, output@) == run_n(instrs, input@, s0, steps as nat),
                !running ==> halted_at(instrs, self.instruction_pointer as int),
            decreases max_steps - steps,
        {
            running = self.step(input, &mut in_pos, &mut output);
            steps = steps + 1;
            proof {
                assert(self.state(in_pos as int, output@) == run_n(
                    instrs,
                    input@,
                    s0,
                    steps as nat,
                ));
            }
        }
        proof {
            let end = run_n(instrs, input@, s0, steps as nat);
            assert(end.in_pos == in_pos as int);
            assert(self.state(end.in_pos, output@) == end);
            assert(halted_at(instrs, end.ip) || steps == max_steps);
        }
        output
    }
}

} // verus!
