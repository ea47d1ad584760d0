//! A minimal stack-based bytecode virtual machine.
//!
//! An [`Interpreter`] executes a linear sequence of instructions that operate
//! on a value stack and a named-variable store.  The machine supports
//! arithmetic, variable read/write, and a single counted-loop construct with
//! backward jumps.  The meaning of every instruction is given by the
//! small-step model around [`step`] and [`run_n`], and the executable
//! interpreter is proved to follow that model exactly.

mod bytecode;
mod interpreter;
mod semantics;
mod vartable;

pub use interpreter::Interpreter;
pub use interpreter::interpreter;

pub use bytecode::ByteCode;
pub use bytecode::Instruction;
pub use bytecode::prog_of;
pub use semantics::Outcome;
pub use semantics::State;
pub use semantics::Step;
pub use semantics::VmError;
pub use semantics::fails_at;
pub use semantics::lemma_jump_below_zero_fails;
pub use semantics::lemma_load_then_return;
pub use semantics::lemma_outcome_is;
pub use semantics::lemma_run_deterministic;
pub use semantics::lemma_write_then_read;
pub use semantics::lemma_settled_stays;
pub use semantics::outcome;
pub use semantics::run_n;
pub use semantics::settles;
pub use semantics::status;
pub use semantics::step;
