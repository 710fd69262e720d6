//! A small interpreter for an eight-instruction tape language.
//!
//! Source text is validated into an [`eval::InstructionSet`], optionally
//! stripped of leading comment loops, and executed against a generic tape
//! whose pointer and cell widths are chosen independently.

pub mod eval;
pub mod interp;
pub mod rle;
pub mod tape;
pub mod utils;

pub use eval::eval_instr;
pub use eval::EvalError;
pub use eval::Instruction;
pub use eval::InstructionSet;
pub use eval::JumpTable;
pub use interp::InterpRun;
pub use interp::Interpreter;
pub use interp::InterpreterBuilder;
pub use interp::RunOutcome;
pub use rle::RLEInstructionSet;
pub use rle::RLE;
pub use tape::Tape;
pub use tape::TapeCell;
pub use tape::TapePointer;
pub use tape::TapeWord;
pub use utils::is_ascii_printable;
pub use utils::parse_cell_value;
pub use utils::DisplayMode;
