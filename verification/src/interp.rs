//! The execution engine: drives a tape through a validated instruction
//! sequence. Output is collected in a buffer for the caller to flush;
//! input arrives one line at a time through [`Interpreter::feed_line`].

use vstd::prelude::*;
use crate::eval::balanced;
use crate::eval::is_loop_instr;
use crate::eval::jump_table_correct;
use crate::eval::lemma_jump_table_is_matching;
use crate::eval::match_of;
use crate::eval::open_match_of;
use crate::eval::Instruction;
use crate::eval::InstructionSet;
use crate::tape::Tape;
use crate::tape::TapeCell;
use crate::tape::TapePointer;
use crate::tape::TapeWord;
use crate::utils::parse_chars;
use crate::utils::parse_spec;
use crate::utils::render_cell;
use crate::utils::render_cell_bytes;
use crate::utils::to_char_vec;
use crate::utils::trim_chars;
use crate::utils::trimmed;
use crate::utils::DisplayMode;

verus! {

/// What a call to [`Interpreter::run_for`] stopped for.
#[derive(Clone, Copy, PartialEq, Eq, Structural, Debug)]
pub enum RunOutcome {
    /// Every instruction was executed; a final newline is buffered.
    Finished,
    /// The next instruction reads input: the caller should flush the
    /// buffered output, then hand lines to [`Interpreter::feed_line`].
    NeedInput,
    /// The step budget ran out first; running again picks up where
    /// this call stopped.
    Paused,
}

/// A snapshot of the engine between instructions: the cell values, the
/// tape pointer, the instruction pointer, the output bytes not yet
/// taken, and the count of instructions executed so far.
#[verifier::ext_equal]
pub struct MachineState {
    pub cells: Seq<nat>,
    pub ptr: nat,
    pub ip: nat,
    pub out: Seq<u8>,
    pub executed: nat,
}

/// Where the diagnostic count of executed instructions wraps.
pub open spec fn executed_wrap() -> nat {
    0x1_0000_0000_0000_0000
}

/// One machine step on a non-input instruction of `prog`, on a tape of
/// `pmod` cells whose values wrap at `cmod`. Movement and arithmetic
/// wrap; a loop boundary jumps to its partner's index when its condition
/// holds; an output renders the current cell into the stream. After the
/// dispatch the instruction pointer advances by one — also right after a
/// jump, so the partner's own condition is not re-tested. An input
/// instruction, and an exhausted program, are resting points: the step
/// changes nothing there.
pub open spec fn step(
    m: MachineState,
    prog: Seq<Instruction>,
    pmod: nat,
    cmod: nat,
    width: nat,
    mode: DisplayMode,
) -> MachineState {
    if m.ip >= prog.len() {
        m
    } else {
        let advanced = (m.executed + 1) % executed_wrap();
        match prog[m.ip as int] {
            Instruction::Right => MachineState {
                ptr: (m.ptr + 1) % pmod,
                ip: m.ip + 1,
                executed: advanced,
                ..m
            },
            Instruction::Left => MachineState {
                ptr: ((m.ptr + pmod - 1) % pmod as int) as nat,
                ip: m.ip + 1,
                executed: advanced,
                ..m
            },
            Instruction::Increment => MachineState {
                cells: m.cells.update(m.ptr as int, (m.cells[m.ptr as int] + 1) % cmod),
                ip: m.ip + 1,
                executed: advanced,
                ..m
            },
            Instruction::Decrement => MachineState {
                cells: m.cells.update(
                    m.ptr as int,
                    ((m.cells[m.ptr as int] + cmod - 1) % cmod as int) as nat,
                ),
                ip: m.ip + 1,
                executed: advanced,
                ..m
            },
            Instruction::LoopOpen => MachineState {
                ip: if m.cells[m.ptr as int] == 0 {
                    (match_of(prog, m.ip as int) + 1) as nat
                } else {
                    m.ip + 1
                },
                executed: advanced,
                ..m
            },
            Instruction::LoopClose => MachineState {
                ip: if m.cells[m.ptr as int] != 0 {
                    (open_match_of(prog, m.ip as int) + 1) as nat
                } else {
                    m.ip + 1
                },
                executed: advanced,
                ..m
            },
            Instruction::Output => MachineState {
                out: m.out + render_cell(m.cells[m.ptr as int], width, mode),
                ip: m.ip + 1,
                executed: advanced,
                ..m
            },
            Instruction::Input => m,
        }
    }
}

/// The machine after `n` steps from `m`.
pub open spec fn run_steps(
    m: MachineState,
    prog: Seq<Instruction>,
    pmod: nat,
    cmod: nat,
    width: nat,
    mode: DisplayMode,
    n: nat,
) -> MachineState
    decreases n,
{
    if n == 0 {
        m
    } else {
        step(run_steps(m, prog, pmod, cmod, width, mode, (n - 1) as nat), prog, pmod, cmod, width, mode)
    }
}

/// The machine step for an input instruction once a value arrives: the
/// value lands in the current cell and the instruction pointer moves
/// past the input instruction.
pub open spec fn input_step(m: MachineState, v: nat) -> MachineState {
    MachineState {
        cells: m.cells.update(m.ptr as int, v),
        ip: m.ip + 1,
        executed: (m.executed + 1) % executed_wrap(),
        ..m
    }
}

/// What a finished call to [`Interpreter::run_for`] promises: the final
/// machine state is `n` steps from the initial one, the outcome tells
/// truthfully why the run stopped, and a completed run has one newline
/// appended to its output. A pause happens only when the whole budget
/// was spent and neither of the other two stops had been reached.
pub open spec fn run_outcome_matches(
    init: MachineState,
    fin: MachineState,
    prog: Seq<Instruction>,
    pmod: nat,
    cmod: nat,
    width: nat,
    mode: DisplayMode,
    budget: u64,
    r: RunOutcome,
    n: nat,
) -> bool {
    let end = run_steps(init, prog, pmod, cmod, width, mode, n);
    match r {
        RunOutcome::Finished => end.ip >= prog.len() && fin == (MachineState {
            out: end.out + seq![10u8],
            ..end
        }),
        RunOutcome::NeedInput => end.ip < prog.len() && prog[end.ip as int] == Instruction::Input
            && fin == end,
        RunOutcome::Paused => n == budget && end.ip < prog.len() && prog[end.ip as int]
            != Instruction::Input && fin == end,
    }
}

/// The interpreter: a tape of chosen pointer and cell widths, the
/// instruction pointer, the output buffer and the display mode.
pub struct Interpreter<T: TapePointer, U: TapeCell> {
    tape: Tape<T, U>,
    instr_ptr: usize,
    executed: u64,
    out_buf: Vec<u8>,
    display_mode: DisplayMode,
}

/// Width-independent access to an interpreter, so that the one chosen at
/// start-up can be driven through a single object type.
pub trait InterpRun {
    /// As [`Interpreter::run_for`].
    fn run(&mut self, instr: &InstructionSet, budget: u64) -> RunOutcome;

    /// As [`Interpreter::feed_line`].
    fn feed(&mut self, instr: &InstructionSet, line: &str) -> bool;

    /// As [`Interpreter::executed_count`].
    fn executed(&self) -> u64;

    /// As [`Interpreter::take_output`].
    fn drain(&mut self) -> Vec<u8>;
}

impl<T: TapePointer, U: TapeCell> InterpRun for Interpreter<T, U> {
    fn run(&mut self, instr: &InstructionSet, budget: u64) -> RunOutcome {
        self.run_for(instr, budget)
    }

    fn feed(&mut self, instr: &InstructionSet, line: &str) -> bool {
        self.feed_line(instr, line)
    }

    fn executed(&self) -> u64 {
        self.executed_count()
    }

    fn drain(&mut self) -> Vec<u8> {
        self.take_output()
    }
}

impl<T: TapePointer, U: TapeCell> Interpreter<T, U> {
    /// The machine snapshot the engine is at.
    pub closed spec fn model(self) -> MachineState {
        MachineState {
            cells: self.tape.cells(),
            ptr: self.tape.ptr(),
            ip: self.instr_ptr as nat,
            out: self.out_buf@,
            executed: self.executed as nat,
        }
    }

    /// The display mode the engine renders output with.
    pub closed spec fn mode(self) -> DisplayMode {
        self.display_mode
    }

    /// A builder with no settings chosen yet.
    pub fn builder() -> (r: InterpreterBuilder)
        ensures
            r.chosen_mode() == DisplayMode::Numeric,
    {
        InterpreterBuilder { display_mode: None }
    }

    /// Runs instructions from where the engine stands, until the program
    /// is exhausted, an input instruction is reached, or `budget` steps
    /// have been taken. The final state is some number of machine steps
    /// from the initial one, and the outcome says truthfully which of
    /// the three stops happened.
    pub fn run_for(&mut self, instr: &InstructionSet, budget: u64) -> (r: RunOutcome)
        ensures
            final(self).mode() == old(self).mode(),
            exists|n: nat|
                #[trigger] run_outcome_matches(
                    old(self).model(),
                    final(self).model(),
                    instr@,
                    T::modulus(),
                    U::modulus(),
                    U::byte_width(),
                    old(self).mode(),
                    budget,
                    r,
                    n,
                ),
    {
        let ghost init = self.model();
        let ghost prog = instr@;
        let ghost pmod = T::modulus();
        let ghost cmod = U::modulus();
        let ghost width = U::byte_width();
        let ghost mode0 = self.display_mode;
        proof {
            use_type_invariant(instr);
        }
        let jump_table = instr.build_jump_table();
        let n_instr = instr.len();
        let mut steps: u64 = 0;
        let ghost mut n: nat = 0nat;

        loop
            invariant
                init == old(self).model(),
                mode0 == old(self).mode(),
                self.display_mode == mode0,
                prog == instr@,
                balanced(prog),
                jump_table_correct(prog, jump_table@),
                n_instr == prog.len(),
                pmod == T::modulus(),
                cmod == U::modulus(),
                width == U::byte_width(),
                steps <= budget,
                n == steps as nat,
                run_steps(init, prog, pmod, cmod, width, mode0, n) == self.model(),
            decreases budget - steps,
        {
            if self.instr_ptr >= n_instr {
                self.out_buf.push(10);
                proof {
                    let end = run_steps(init, prog, pmod, cmod, width, mode0, n);
                    assert(self.model() =~= (MachineState { out: end.out + seq![10u8], ..end }));
                    assert(run_outcome_matches(
                        init,
                        self.model(),
                        prog,
                        pmod,
                        cmod,
                        width,
                        mode0,
                        budget,
                        RunOutcome::Finished,
                        n,
                    ));
                }
                return RunOutcome::Finished;
            }
            let inst = instr.get(self.instr_ptr);
            if inst == Instruction::Input {
                proof {
                    assert(run_outcome_matches(
                        init,
                        self.model(),
                        prog,
                        pmod,
                        cmod,
                        width,
                        mode0,
                        budget,
                        RunOutcome::NeedInput,
                        n,
                    ));
                }
                return RunOutcome::NeedInput;
            }
            if steps >= budget {
                proof {
                    assert(run_outcome_matches(
                        init,
                        self.model(),
                        prog,
                        pmod,
                        cmod,
                        width,
                        mode0,
                        budget,
                        RunOutcome::Paused,
                        n,
                    ));
                }
                return RunOutcome::Paused;
            }
            steps = steps + 1;
            let ghost m0 = self.model();

            if inst == Instruction::Right {
                self.tape.right();
            } else if inst == Instruction::Left {
                self.tape.left();
            } else if inst == Instruction::Increment {
                self.tape.increment();
            } else if inst == Instruction::Decrement {
                self.tape.decrement();
            } else if inst == Instruction::LoopOpen {
                if self.tape.is_zero() {
                    proof {
                        assert(is_loop_instr(prog[self.instr_ptr as int]));
                        lemma_jump_table_is_matching(prog, jump_table@, self.instr_ptr);
                    }
                    let target = jump_table.get(self.instr_ptr);
                    proof {
                        assert(jump_table@.dom().contains(target));
                    }
                    self.instr_ptr = target;
                }
            } else if inst == Instruction::LoopClose {
                if !self.tape.is_zero() {
                    proof {
                        assert(is_loop_instr(prog[self.instr_ptr as int]));
                        lemma_jump_table_is_matching(prog, jump_table@, self.instr_ptr);
                    }
                    let target = jump_table.get(self.instr_ptr);
                    proof {
                        assert(jump_table@.dom().contains(target));
                    }
                    self.instr_ptr = target;
                }
            } else {
                let value = self.tape.get();
                let mut bytes = render_cell_bytes(value, self.display_mode);
                self.out_buf.append(&mut bytes);
            }

            self.instr_ptr = self.instr_ptr + 1;
            self.executed = if self.executed == u64::MAX {
                0
            } else {
                self.executed + 1
            };
            proof {
                assert(self.model() =~= step(m0, prog, pmod, cmod, width, mode0));
                assert(run_steps(init, prog, pmod, cmod, width, mode0, n + 1) == step(
                    run_steps(init, prog, pmod, cmod, width, mode0, n),
                    prog,
                    pmod,
                    cmod,
                    width,
                    mode0,
                ));
                n = n + 1nat;
            }
        }
    }

    /// Hands one line of input to the engine. When the engine stands on
    /// an input instruction and the trimmed line parses as a cell value,
    /// the value lands in the current cell, the engine steps past the
    /// input instruction, and the call reports acceptance; otherwise
    /// nothing changes and the caller should try another line.
    pub fn feed_line(&mut self, instr: &InstructionSet, line: &str) -> (r: bool)
        ensures
            final(self).mode() == old(self).mode(),
            ({
                let at_input = old(self).model().ip < instr@.len() && instr@[old(
                    self,
                ).model().ip as int] == Instruction::Input;
                let parsed = parse_spec(trimmed(line@), U::modulus());
                if at_input && parsed is Some {
                    r && final(self).model() == input_step(old(self).model(), parsed->0)
                } else {
                    !r && final(self).model() == old(self).model()
                }
            }),
    {
        if self.instr_ptr >= instr.len() {
            return false;
        }
        if instr.get(self.instr_ptr) != Instruction::Input {
            return false;
        }
        let chars = to_char_vec(line);
        let cleaned = trim_chars(&chars);
        let parsed: Option<U> = parse_chars(&cleaned);
        match parsed {
            Some(value) => {
                self.tape.set(value);
                self.instr_ptr = self.instr_ptr + 1;
                self.executed = if self.executed == u64::MAX {
                    0
                } else {
                    self.executed + 1
                };
                proof {
                    assert(final(self).model() =~= input_step(
                        old(self).model(),
                        value.as_nat(),
                    ));
                }
                true
            },
            None => false,
        }
    }

    /// The number of instructions executed so far, reported for
    /// diagnostics; the count wraps past the width of the counter.
    pub fn executed_count(&self) -> (r: u64)
        ensures
            r as nat == self.model().executed,
    {
        self.executed
    }

    /// Takes the buffered output, leaving the buffer empty. The caller
    /// writes these bytes to its sink: before blocking on input, so that
    /// prompts are visible, and once more when the run completes.
    pub fn take_output(&mut self) -> (r: Vec<u8>)
        ensures
            final(self).mode() == old(self).mode(),
            r@ == old(self).model().out,
            final(self).model() == (MachineState { out: Seq::empty(), ..old(self).model() }),
    {
        let mut out: Vec<u8> = Vec::new();
        std::mem::swap(&mut out, &mut self.out_buf);
        proof {
            assert(final(self).model() =~= (MachineState {
                out: Seq::empty(),
                ..old(self).model()
            }));
        }
        out
    }
}

/// Builds an [`Interpreter`], with the display mode as the one optional
/// setting.
pub struct InterpreterBuilder {
    display_mode: Option<DisplayMode>,
}

impl InterpreterBuilder {
    /// The display mode the built interpreter will use: the chosen one,
    /// or numeric display by default.
    pub closed spec fn chosen_mode(self) -> DisplayMode {
        match self.display_mode {
            Some(m) => m,
            None => DisplayMode::Numeric,
        }
    }

    /// Chooses the display mode.
    pub fn display_mode(self, value: DisplayMode) -> (r: Self)
        ensures
            r.chosen_mode() == value,
    {
        InterpreterBuilder { display_mode: Some(value) }
    }

    /// Builds the interpreter: a fresh tape with every cell and the
    /// pointer at zero, nothing executed and nothing buffered.
    pub fn build<T: TapePointer, U: TapeCell>(self) -> (r: Interpreter<T, U>)
        ensures
            r.model() == (MachineState {
                cells: Seq::new(T::modulus(), |i: int| 0nat),
                ptr: 0nat,
                ip: 0nat,
                out: Seq::<u8>::empty(),
                executed: 0nat,
            }),
            r.mode() == self.chosen_mode(),
    {
        let display_mode = match self.display_mode {
            Some(m) => m,
            None => DisplayMode::Numeric,
        };
        let r = Interpreter {
            tape: Tape::new(),
            instr_ptr: 0,
            executed: 0,
            out_buf: Vec::new(),
            display_mode,
        };
        proof {
            assert(r.model() =~= (MachineState {
                cells: Seq::new(T::modulus(), |i: int| 0nat),
                ptr: 0nat,
                ip: 0nat,
                out: Seq::<u8>::empty(),
                executed: 0nat,
            }));
        }
        r
    }
}

} // verus!
