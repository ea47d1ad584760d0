//! The interpreter: the executable machine, proved against the small-step
//! model around [`step`] and [`run_n`].

use vstd::prelude::*;

use crate::bytecode::ByteCode;
use crate::bytecode::Instruction;
use crate::bytecode::prog_of;
use crate::semantics::Outcome;
use crate::semantics::State;
use crate::semantics::Step;
use crate::semantics::VmError;
use crate::semantics::fails_at;
use crate::semantics::lemma_outcome_is;
use crate::semantics::outcome;
use crate::semantics::run_n;
use crate::semantics::settles;
use crate::semantics::status;
use crate::semantics::step;
use crate::vartable::lookup;
use crate::vartable::map_of;
use crate::vartable::store;
use crate::vartable::uniq_keys;

verus! {

/// The virtual machine: a value stack, a variable table, the position of
/// the next instruction, and the single loop context (limit, counter).
///
/// An instance abstracts to the [`State`] it would start a run from; its
/// result register is clear between runs.
pub struct Interpreter {
    stack: Vec<i64>,
    vars: Vec<(String, i64)>,
    prog_count: usize,
    lp: (usize, usize),
}

impl View for Interpreter {
    type V = State;

    closed spec fn view(&self) -> State {
        self.st_with(None)
    }
}

impl Interpreter {
    /// Well-formedness: the keys of the variable table never repeat.
    ///
    /// [`Interpreter::new`] establishes it and every method preserves it.
    pub closed spec fn wf(self) -> bool {
        uniq_keys(self.vars@)
    }

    /// The machine state the fields hold, with the given result register.
    spec fn st_with(self, ret: Option<i64>) -> State {
        State {
            stack: self.stack@,
            vars: map_of(self.vars@),
            pc: self.prog_count as nat,
            loop_limit: self.lp.0,
            loop_count: self.lp.1,
            ret,
        }
    }

    /// A fresh interpreter: empty stack, empty variable table, position 0.
    pub fn new() -> (r: Self)
        ensures
            r.wf(),
            r@ == State::init(),
    {
        let r = Interpreter { stack: Vec::new(), vars: Vec::new(), prog_count: 0, lp: (0, 0) };
        proof {
            assert(map_of(r.vars@) =~= Map::<Seq<char>, i64>::empty());
            assert(r@ =~= State::init());
        }
        r
    }

    /// Sets the iteration target of the single loop context.
    fn set_lp_limit(&mut self, limit: usize)
        requires
            old(self).wf(),
        ensures
            final(self).wf(),
            final(self)@ == (State { loop_limit: limit, ..old(self)@ }),
    {
        self.lp.0 = limit;
        proof {
            assert(self@ =~= (State { loop_limit: limit, ..old(self)@ }));
        }
    }

    /// Sets the iteration counter of the single loop context.
    fn set_lp_current_iter(&mut self, current_iter: usize)
        requires
            old(self).wf(),
        ensures
            final(self).wf(),
            final(self)@ == (State { loop_count: current_iter, ..old(self)@ }),
    {
        self.lp.1 = current_iter;
        proof {
            assert(self@ =~= (State { loop_count: current_iter, ..old(self)@ }));
        }
    }

    /// The iteration target of the single loop context.
    fn get_lp_limit(&self) -> (r: usize)
        ensures
            r == self@.loop_limit,
    {
        self.lp.0
    }

    /// The iteration counter of the single loop context.
    fn get_lp_current_iter(&self) -> (r: usize)
        ensures
            r == self@.loop_count,
    {
        self.lp.1
    }

    /// Runs the program from the current state until the position moves
    /// past its end, reporting the result register, or the first failure.
    ///
    /// The caller owes a run that settles: one that either halts or fails
    /// after finitely many steps.  A program whose loop never reaches its
    /// exit condition settles under no contract of this type; detecting
    /// that is out of scope.
    pub fn run(&mut self, byte_code: &[ByteCode]) -> (r: Result<Option<i64>, VmError>)
        requires
            old(self).wf(),
            settles(prog_of(byte_code@), old(self)@),
            byte_code@.len() < usize::MAX,
        ensures
            final(self).wf(),
            ({
                let oc = outcome(prog_of(byte_code@), old(self)@);
                &&& oc matches Outcome::Halted(st) ==> r == Ok::<Option<i64>, VmError>(st.ret)
                    && final(self)@ == st.clear_ret()
                &&& oc matches Outcome::Failed(e) ==> r == Err::<Option<i64>, VmError>(e) && (
                exists|st: State|
                    #[trigger] fails_at(prog_of(byte_code@), old(self)@, st, e) && final(self)@
                        == st.clear_ret())
            }),
    {
        let ghost prog = prog_of(byte_code@);
        let ghost s0 = self@;
        let ghost n0 = choose|n: nat| !(run_n(prog, s0, n) is Running);
        let mut result: Option<i64> = None;
        let ghost mut i: nat = 0;
        while self.prog_count < byte_code.len()
            invariant
                prog == prog_of(byte_code@),
                s0 == old(self)@,
                byte_code@.len() < usize::MAX,
                uniq_keys(self.vars@),
                !(run_n(prog, s0, n0) is Running),
                i <= n0,
                run_n(prog, s0, i) == status(prog, self.st_with(result)),
            decreases n0 - i,
        {
            let ghost cur = self.st_with(result);
            proof {
                assert(run_n(prog, s0, i) == Outcome::Running(cur));
                assert(i < n0);
            }
            let pc = self.prog_count;
            let mut adv_pc: usize = 1;
            match &byte_code[pc].instruction {
                Instruction::LOAD_VAL(val) => {
                    self.stack.push(*val);
                },
                Instruction::READ_VAR(key) => {
                    match lookup(&self.vars, key) {
                        Some(val) => {
                            self.stack.push(val);
                        },
                        None => {
                            proof {
                                assert(run_n(prog, s0, i + 1) == Outcome::Failed(
                                    VmError::UnboundVariable,
                                ));
                                lemma_outcome_is(prog, s0, i + 1);
                                assert(fails_at(prog, s0, cur, VmError::UnboundVariable));
                                assert(self@ =~= cur.clear_ret());
                                assert(fails_at(
                                    prog_of(byte_code@),
                                    old(self)@,
                                    cur,
                                    VmError::UnboundVariable,
                                ) && self@ == cur.clear_ret());
                            }
                            return Err(VmError::UnboundVariable);
                        },
                    }
                },
                Instruction::WRITE_VAR(key) => {
                    match self.stack.pop() {
                        Some(val) => {
                            store(&mut self.vars, key.clone(), val);
                        },
                        None => {
                            proof {
                                assert(run_n(prog, s0, i + 1) == Outcome::Failed(
                                    VmError::StackUnderflow,
                                ));
                                lemma_outcome_is(prog, s0, i + 1);
                                assert(fails_at(prog, s0, cur, VmError::StackUnderflow));
                                assert(self@ =~= cur.clear_ret());
                                assert(fails_at(
                                    prog_of(byte_code@),
                                    old(self)@,
                                    cur,
                                    VmError::StackUnderflow,
                                ) && self@ == cur.clear_ret());
                            }
                            return Err(VmError::StackUnderflow);
                        },
                    }
                },
                Instruction::ADD => {
                    if self.stack.len() >= 2 {
                        let a = self.stack.pop().unwrap();
                        let b = self.stack.pop().unwrap();
                        self.stack.push(a.wrapping_add(b));
                    }
                },
                Instruction::MULTIPLY => {
                    if self.stack.len() >= 2 {
                        let a = self.stack.pop().unwrap();
                        let b = self.stack.pop().unwrap();
                        self.stack.push(a.wrapping_mul(b));
                    }
                },
                Instruction::RETURN_VALUE => {
                    result = self.stack.pop();
                },
                Instruction::LOOP(limit) => {
                    self.set_lp_limit(*limit);
                    self.set_lp_current_iter(0);
                },
                Instruction::JUMP(off) => {
                    if pc <= *off {
                        proof {
                            assert(run_n(prog, s0, i + 1) == Outcome::Failed(
                                VmError::InvalidJumpTarget,
                            ));
                            lemma_outcome_is(prog, s0, i + 1);
                            assert(fails_at(prog, s0, cur, VmError::InvalidJumpTarget));
                            assert(self@ =~= cur.clear_ret());
                            assert(fails_at(
                                prog_of(byte_code@),
                                old(self)@,
                                cur,
                                VmError::InvalidJumpTarget,
                            ) && self@ == cur.clear_ret());
                        }
                        return Err(VmError::InvalidJumpTarget);
                    }
                    self.prog_count = pc - *off - 1;
                    self.lp.1 = self.lp.1.wrapping_add(1);
                },
                Instruction::IF_NOT_EQUAL => {
                    if self.get_lp_limit() == self.get_lp_current_iter() {
                        adv_pc = 2;
                    }
                },
            }
            self.prog_count = self.prog_count + adv_pc;
            proof {
                assert(step(prog, cur) == Step::Next(self.st_with(result)));
                i = i + 1;
            }
        }
        proof {
            assert(run_n(prog, s0, i) == Outcome::Halted(self.st_with(result)));
            lemma_outcome_is(prog, s0, i);
            assert(self@ =~= self.st_with(result).clear_ret());
        }
        Ok(result)
    }

    /// Runs the program from the current state and returns the last value
    /// popped by a RETURN_VALUE instruction, or `None` if the program falls
    /// off its end without one.
    ///
    /// This operation trusts the structural well-formedness of its input:
    /// the caller owes a program whose run halts without failing (jump
    /// targets stay in range, the stack holds a value wherever one is
    /// popped, every read variable was written).  [`Interpreter::run`]
    /// reports the failures of arbitrary programs instead.
    pub fn interpret(&mut self, byte_code: &[ByteCode]) -> (r: Option<i64>)
        requires
            old(self).wf(),
            settles(prog_of(byte_code@), old(self)@),
            outcome(prog_of(byte_code@), old(self)@) is Halted,
            byte_code@.len() < usize::MAX,
        ensures
            final(self).wf(),
            outcome(prog_of(byte_code@), old(self)@) matches Outcome::Halted(st) ==> r == st.ret
                && final(self)@ == st.clear_ret(),
    {
        match self.run(byte_code) {
            Ok(res) => res,
            Err(_) => unreached(),
        }
    }

    /// Parses a textual program.
    ///
    /// No textual instruction grammar is defined for this machine: every
    /// source text denotes the empty program.  Building a program is the
    /// calling environment's business; it assembles the instruction
    /// sequence directly.
    pub fn parse(&mut self, _source: String) -> (r: Vec<ByteCode>)
        ensures
            r@ == Seq::<ByteCode>::empty(),
            *final(self) == *old(self),
    {
        Vec::new()
    }

    /// Parses the text and interprets the program it denotes.
    ///
    /// Since every source text denotes the empty program, no instruction
    /// runs: the state is left as it was and there is no returned value.
    pub fn parse_and_interpret(&mut self, source: String) -> (r: Option<i64>)
        requires
            old(self).wf(),
        ensures
            final(self).wf(),
            r == None::<i64>,
            final(self)@ == old(self)@,
    {
        let byte_code = self.parse(source);
        proof {
            assert(prog_of(byte_code@) =~= Seq::<Instruction>::empty());
            assert(run_n(prog_of(byte_code@), self@, 0) == Outcome::Halted(self@));
            lemma_outcome_is(prog_of(byte_code@), self@, 0);
        }
        self.interpret(byte_code.as_slice())
    }
}

/// Runs the program on a fresh interpreter and returns its result.
///
/// As with [`Interpreter::interpret`], the caller owes a program whose run
/// halts without failing.
pub fn interpreter(byte_code: &[ByteCode]) -> (r: Option<i64>)
    requires
        settles(prog_of(byte_code@), State::init()),
        outcome(prog_of(byte_code@), State::init()) is Halted,
        byte_code@.len() < usize::MAX,
    ensures
        outcome(prog_of(byte_code@), State::init()) matches Outcome::Halted(st) ==> r == st.ret,
{
    let mut vm = Interpreter::new();
    vm.interpret(byte_code)
}

} // verus!
