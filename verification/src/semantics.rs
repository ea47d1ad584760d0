//! The small-step model of the machine.
//!
//! [`State`] is the full machine state between two instructions, [`step`]
//! says what a single instruction does to it, and [`run_n`] iterates the
//! step up to a given number of times.  A run settles either in a halted
//! state (the program counter has moved past the end of the program) or in
//! a failure; an ill-formed loop may never settle.  [`outcome`] names the
//! settled result of a run, and the lemmas at the end of the module state
//! the laws the machine obeys.

use vstd::prelude::*;

use crate::bytecode::Instruction;

verus! {

/// The failures a run can report.
#[derive(Debug, Clone, Copy, PartialEq, Eq, Structural)]
pub enum VmError {
    /// A pop was attempted on an empty stack where a value is required.
    StackUnderflow,
    /// A variable was read that was never written.
    UnboundVariable,
    /// A jump would move the position below zero.
    InvalidJumpTarget,
}

/// The machine state between two instructions.
#[verifier::ext_equal]
pub struct State {
    /// The value stack; the last element is the top.
    pub stack: Seq<i64>,
    /// The variable table, keyed by variable name.
    pub vars: Map<Seq<char>, i64>,
    /// The index of the next instruction to execute.
    pub pc: nat,
    /// The target iteration count of the single loop context.
    pub loop_limit: usize,
    /// The current iteration count of the single loop context.
    pub loop_count: usize,
    /// The result register: the value popped by the last RETURN_VALUE.
    pub ret: Option<i64>,
}

impl State {
    /// The state of a freshly constructed interpreter.
    pub open spec fn init() -> State {
        State {
            stack: Seq::empty(),
            vars: Map::empty(),
            pc: 0,
            loop_limit: 0,
            loop_count: 0,
            ret: None,
        }
    }

    /// The same state with the result register cleared.
    pub open spec fn clear_ret(self) -> State {
        State { ret: None, ..self }
    }
}

/// What a single instruction does: either the next state, or a failure.
#[verifier::ext_equal]
pub enum Step {
    Next(State),
    Fail(VmError),
}

/// Where a run stands after some number of steps.
#[verifier::ext_equal]
pub enum Outcome {
    /// The position is still inside the program.
    Running(State),
    /// The position has moved past the end of the program.
    Halted(State),
    /// A step failed; the state at the failure is dropped.
    Failed(VmError),
}

/// Whether a state is halted or still running against the given program.
pub open spec fn status(prog: Seq<Instruction>, s: State) -> Outcome {
    if s.pc >= prog.len() {
        Outcome::Halted(s)
    } else {
        Outcome::Running(s)
    }
}

/// The effect of the single instruction at the current position.
///
/// Every instruction advances the position by 1, except IF_NOT_EQUAL, which
/// advances it by 2 when the loop counter has reached the loop limit, and
/// JUMP, whose net effect is to move the position back by its offset (the
/// rewind by offset + 1 and the advance by 1 combined).  JUMP also counts
/// one more iteration; the counter wraps at the machine limit, as the sums
/// and products do at theirs.  ADD and MULTIPLY tolerate a short stack as a
/// silent no-op; WRITE_VAR, READ_VAR and JUMP fail explicitly.
pub open spec fn step(prog: Seq<Instruction>, s: State) -> Step
    recommends
        s.pc < prog.len(),
{
    match prog[s.pc as int] {
        Instruction::LOAD_VAL(v) => Step::Next(
            State { stack: s.stack.push(v), pc: s.pc + 1, ..s },
        ),
        Instruction::READ_VAR(k) => if s.vars.dom().contains(k@) {
            Step::Next(State { stack: s.stack.push(s.vars[k@]), pc: s.pc + 1, ..s })
        } else {
            Step::Fail(VmError::UnboundVariable)
        },
        Instruction::WRITE_VAR(k) => if s.stack.len() > 0 {
            Step::Next(
                State {
                    stack: s.stack.drop_last(),
                    vars: s.vars.insert(k@, s.stack.last()),
                    pc: s.pc + 1,
                    ..s
                },
            )
        } else {
            Step::Fail(VmError::StackUnderflow)
        },
        Instruction::ADD => if s.stack.len() >= 2 {
            Step::Next(
                State {
                    stack: s.stack.drop_last().drop_last().push(
                        vstd::wrapping::i64_specs::wrapping_add(
                            s.stack.last(),
                            s.stack.drop_last().last(),
                        ),
                    ),
                    pc: s.pc + 1,
                    ..s
                },
            )
        } else {
            Step::Next(State { pc: s.pc + 1, ..s })
        },
        Instruction::MULTIPLY => if s.stack.len() >= 2 {
            Step::Next(
                State {
                    stack: s.stack.drop_last().drop_last().push(
                        vstd::wrapping::i64_specs::wrapping_mul(
                            s.stack.last(),
                            s.stack.drop_last().last(),
                        ),
                    ),
                    pc: s.pc + 1,
                    ..s
                },
            )
        } else {
            Step::Next(State { pc: s.pc + 1, ..s })
        },
        Instruction::LOOP(limit) => Step::Next(
            State { loop_limit: limit, loop_count: 0, pc: s.pc + 1, ..s },
        ),
        Instruction::JUMP(off) => if s.pc > off {
            Step::Next(
                State {
                    pc: (s.pc - off) as nat,
                    loop_count: vstd::wrapping::usize_specs::wrapping_add(s.loop_count, 1),
                    ..s
                },
            )
        } else {
            Step::Fail(VmError::InvalidJumpTarget)
        },
        Instruction::IF_NOT_EQUAL => Step::Next(
            State {
                pc: s.pc + (if s.loop_limit == s.loop_count {
                    2nat
                } else {
                    1nat
                }),
                ..s
            },
        ),
        Instruction::RETURN_VALUE => if s.stack.len() > 0 {
            Step::Next(
                State { stack: s.stack.drop_last(), ret: Some(s.stack.last()), pc: s.pc + 1, ..s },
            )
        } else {
            Step::Next(State { ret: None, pc: s.pc + 1, ..s })
        },
    }
}

/// Where the run stands after at most `n` steps from state `s`.
///
/// Once the run halts or fails, further steps change nothing.
pub open spec fn run_n(prog: Seq<Instruction>, s: State, n: nat) -> Outcome
    decreases n,
{
    if n == 0 {
        status(prog, s)
    } else {
        match run_n(prog, s, (n - 1) as nat) {
            Outcome::Running(t) => match step(prog, t) {
                Step::Next(u) => status(prog, u),
                Step::Fail(e) => Outcome::Failed(e),
            },
            done => done,
        }
    }
}

/// Whether the run from state `s` ever halts or fails.
pub open spec fn settles(prog: Seq<Instruction>, s: State) -> bool {
    exists|n: nat| !(run_n(prog, s, n) is Running)
}

/// The settled outcome of the run from state `s`.
///
/// Meaningful when `settles(prog, s)` holds; every step count at which the
/// run has settled gives the same outcome (`lemma_outcome_is`).
pub open spec fn outcome(prog: Seq<Instruction>, s: State) -> Outcome {
    run_n(prog, s, choose|n: nat| !(run_n(prog, s, n) is Running))
}

/// Whether a failing step is reached from `s0`: some run prefix stands at
/// `st`, and the instruction there fails with `e`.
pub open spec fn fails_at(prog: Seq<Instruction>, s0: State, st: State, e: VmError) -> bool {
    &&& exists|n: nat| run_n(prog, s0, n) == Outcome::Running(st)
    &&& step(prog, st) == Step::Fail(e)
}

/// Once a run has settled, its outcome never changes.
pub proof fn lemma_settled_stays(prog: Seq<Instruction>, s: State, m: nat, n: nat)
    requires
        m <= n,
        !(run_n(prog, s, m) is Running),
    ensures
        run_n(prog, s, n) == run_n(prog, s, m),
    decreases n,
{
    if m < n {
        lemma_settled_stays(prog, s, m, (n - 1) as nat);
    }
}

/// A step count at which the run has settled names the settled outcome.
pub proof fn lemma_outcome_is(prog: Seq<Instruction>, s: State, n: nat)
    requires
        !(run_n(prog, s, n) is Running),
    ensures
        settles(prog, s),
        outcome(prog, s) == run_n(prog, s, n),
{
    assert(settles(prog, s));
    let c = choose|k: nat| !(run_n(prog, s, k) is Running);
    if c <= n {
        lemma_settled_stays(prog, s, c, n);
    } else {
        lemma_settled_stays(prog, s, n, c);
    }
}

/// Execution is deterministic: two runs of the same program, each from a
/// fresh interpreter state, settle on the same outcome, at whatever step
/// counts they are observed.
pub proof fn lemma_run_deterministic(prog: Seq<Instruction>, n1: nat, n2: nat)
    requires
        !(run_n(prog, State::init(), n1) is Running),
        !(run_n(prog, State::init(), n2) is Running),
    ensures
        run_n(prog, State::init(), n1) == run_n(prog, State::init(), n2),
{
    lemma_outcome_is(prog, State::init(), n1);
    lemma_outcome_is(prog, State::init(), n2);
}

/// A program that only loads a value and immediately returns it halts with
/// exactly that value: the machine hands it back unchanged.
pub proof fn lemma_load_then_return(v: i64)
    ensures
        settles(seq![Instruction::LOAD_VAL(v), Instruction::RETURN_VALUE], State::init()),
        outcome(
            seq![Instruction::LOAD_VAL(v), Instruction::RETURN_VALUE],
            State::init(),
        ) matches Outcome::Halted(st) && st.ret == Some(v),
{
    let prog = seq![Instruction::LOAD_VAL(v), Instruction::RETURN_VALUE];
    let s0 = State::init();
    assert(run_n(prog, s0, 0) == Outcome::Running(s0));
    let s1 = State { stack: s0.stack.push(v), pc: 1, ..s0 };
    assert(step(prog, s0) == Step::Next(s1));
    assert(run_n(prog, s0, 1) == Outcome::Running(s1));
    let s2 = State { stack: s1.stack.drop_last(), ret: Some(s1.stack.last()), pc: 2, ..s1 };
    assert(s1.stack.last() == v);
    assert(step(prog, s1) == Step::Next(s2));
    assert(run_n(prog, s0, 2) == Outcome::Halted(s2));
    lemma_outcome_is(prog, s0, 2);
}

/// A write followed by a read of the same key hands the written value back:
/// the two steps leave the stack as it was, bind the key to the value that
/// was on top of the stack, and advance the position by 2.
pub proof fn lemma_write_then_read(prog: Seq<Instruction>, s: State, kw: String, kr: String)
    requires
        s.pc + 1 < prog.len(),
        prog[s.pc as int] == Instruction::WRITE_VAR(kw),
        prog[s.pc as int + 1] == Instruction::READ_VAR(kr),
        kr@ == kw@,
        s.stack.len() > 0,
    ensures
        step(prog, s) matches Step::Next(s1) && step(prog, s1) matches Step::Next(s2)
            && s2 == (State {
            vars: s.vars.insert(kw@, s.stack.last()),
            pc: s.pc + 2,
            ..s
        }),
{
    let v = s.stack.last();
    let s1 = State {
        stack: s.stack.drop_last(),
        vars: s.vars.insert(kw@, v),
        pc: s.pc + 1,
        ..s
    };
    assert(step(prog, s) == Step::Next(s1));
    let s2 = State { stack: s1.stack.push(s1.vars[kr@]), pc: s1.pc + 1, ..s1 };
    assert(step(prog, s1) == Step::Next(s2));
    assert(s2.stack =~= s.stack);
    assert(s2 =~= (State { vars: s.vars.insert(kw@, s.stack.last()), pc: s.pc + 2, ..s }));
}

/// A jump whose rewound position would fall below zero is a reported
/// failure, not a wraparound: once a run reaches such a jump, it settles
/// on the invalid-jump-target error.
pub proof fn lemma_jump_below_zero_fails(
    prog: Seq<Instruction>,
    s0: State,
    st: State,
    n: nat,
    off: usize,
)
    requires
        run_n(prog, s0, n) == Outcome::Running(st),
        prog[st.pc as int] == Instruction::JUMP(off),
        st.pc <= off,
    ensures
        settles(prog, s0),
        outcome(prog, s0) == Outcome::Failed(VmError::InvalidJumpTarget),
{
    assert(step(prog, st) == Step::Fail(VmError::InvalidJumpTarget));
    assert(run_n(prog, s0, n + 1) == Outcome::Failed(VmError::InvalidJumpTarget));
    lemma_outcome_is(prog, s0, n + 1);
}

} // verus!
