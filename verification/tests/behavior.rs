use bytecode_vm::ByteCode;
use bytecode_vm::Instruction;
use bytecode_vm::Interpreter;
use bytecode_vm::VmError;
use bytecode_vm::interpreter;

fn code(instructions: Vec<Instruction>) -> Vec<ByteCode> {
    instructions
        .into_iter()
        .map(|instruction| ByteCode { instruction })
        .collect()
}

#[test]
fn load_then_return_hands_the_value_back() {
    for v in [7, 0, -3, i64::MAX, i64::MIN] {
        let b_code = code(vec![Instruction::LOAD_VAL(v), Instruction::RETURN_VALUE]);
        assert_eq!(Some(v), interpreter(&b_code));
    }
}

#[test]
fn write_then_read_round_trips() {
    let b_code = code(vec![
        Instruction::LOAD_VAL(9),
        Instruction::WRITE_VAR("k".to_string()),
        Instruction::READ_VAR("k".to_string()),
        Instruction::RETURN_VALUE,
    ]);
    assert_eq!(Some(9), interpreter(&b_code));
}

#[test]
fn last_write_wins() {
    let b_code = code(vec![
        Instruction::LOAD_VAL(1),
        Instruction::WRITE_VAR("k".to_string()),
        Instruction::LOAD_VAL(5),
        Instruction::WRITE_VAR("k".to_string()),
        Instruction::READ_VAR("k".to_string()),
        Instruction::RETURN_VALUE,
    ]);
    assert_eq!(Some(5), interpreter(&b_code));
}

#[test]
fn fresh_runs_are_deterministic() {
    let program = vec![
        Instruction::LOAD_VAL(2),
        Instruction::LOOP(3),
        Instruction::LOAD_VAL(2),
        Instruction::ADD,
        Instruction::IF_NOT_EQUAL,
        Instruction::JUMP(3),
        Instruction::RETURN_VALUE,
    ];
    let first = Interpreter::new().run(&code(program.clone()));
    let second = Interpreter::new().run(&code(program));
    assert_eq!(first, second);
    assert_eq!(Ok(Some(10)), first);
}

#[test]
fn multiply_pops_two_and_pushes_the_product() {
    let b_code = code(vec![
        Instruction::LOAD_VAL(3),
        Instruction::LOAD_VAL(4),
        Instruction::MULTIPLY,
        Instruction::RETURN_VALUE,
    ]);
    assert_eq!(Some(12), interpreter(&b_code));
}

#[test]
fn addition_wraps_on_overflow() {
    let b_code = code(vec![
        Instruction::LOAD_VAL(i64::MAX),
        Instruction::LOAD_VAL(1),
        Instruction::ADD,
        Instruction::RETURN_VALUE,
    ]);
    assert_eq!(Some(i64::MIN), interpreter(&b_code));
}

#[test]
fn add_on_a_short_stack_is_a_no_op() {
    let one_value = code(vec![
        Instruction::LOAD_VAL(5),
        Instruction::ADD,
        Instruction::RETURN_VALUE,
    ]);
    assert_eq!(Some(5), interpreter(&one_value));

    let empty_stack = code(vec![Instruction::ADD, Instruction::RETURN_VALUE]);
    assert_eq!(None, interpreter(&empty_stack));
}

#[test]
fn return_on_an_empty_stack_clears_the_result() {
    let b_code = code(vec![
        Instruction::LOAD_VAL(1),
        Instruction::RETURN_VALUE,
        Instruction::RETURN_VALUE,
    ]);
    assert_eq!(None, interpreter(&b_code));
}

#[test]
fn the_last_return_wins() {
    let b_code = code(vec![
        Instruction::LOAD_VAL(1),
        Instruction::RETURN_VALUE,
        Instruction::LOAD_VAL(2),
        Instruction::RETURN_VALUE,
    ]);
    assert_eq!(Some(2), interpreter(&b_code));
}

#[test]
fn empty_program_returns_nothing() {
    let b_code: Vec<ByteCode> = Vec::new();
    assert_eq!(None, interpreter(&b_code));
}

#[test]
fn loop_with_limit_zero_exits_at_once() {
    let b_code = code(vec![
        Instruction::LOOP(0),
        Instruction::IF_NOT_EQUAL,
        Instruction::JUMP(2),
        Instruction::RETURN_VALUE,
    ]);
    assert_eq!(Ok(None), Interpreter::new().run(&b_code));
}

#[test]
fn jump_below_zero_is_reported() {
    let b_code = code(vec![Instruction::JUMP(5)]);
    let r = Interpreter::new().run(&b_code);
    assert_eq!(Err(VmError::InvalidJumpTarget), r);
}

#[test]
fn write_var_on_an_empty_stack_is_reported() {
    let b_code = code(vec![Instruction::WRITE_VAR("x".to_string())]);
    let r = Interpreter::new().run(&b_code);
    assert_eq!(Err(VmError::StackUnderflow), r);
}

#[test]
fn read_of_an_unbound_variable_is_reported() {
    let b_code = code(vec![Instruction::READ_VAR("x".to_string())]);
    let r = Interpreter::new().run(&b_code);
    assert_eq!(Err(VmError::UnboundVariable), r);
}

#[test]
fn a_used_instance_stays_past_the_end() {
    let b_code = code(vec![Instruction::LOAD_VAL(2), Instruction::RETURN_VALUE]);
    let mut vm = Interpreter::new();
    assert_eq!(Some(2), vm.interpret(&b_code));
    assert_eq!(None, vm.interpret(&b_code));
}

#[test]
fn parse_yields_the_empty_program() {
    let mut vm = Interpreter::new();
    let parsed = vm.parse("LOAD_VAL 2".to_string());
    assert!(parsed.is_empty());
    assert_eq!(None, vm.parse_and_interpret("LOAD_VAL 2".to_string()));
}
