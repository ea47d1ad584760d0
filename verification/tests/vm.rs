use bytecode_vm::ByteCode;
use bytecode_vm::Instruction;
use bytecode_vm::Interpreter;
use bytecode_vm::interpreter;

#[test]
fn mod_load_val() {
    let b_code: Vec<ByteCode> = vec![
        ByteCode {
            instruction: Instruction::LOAD_VAL(2),
        },
        ByteCode {
            instruction: Instruction::RETURN_VALUE,
        },
    ];
    let mut interpreter = Interpreter::new();
    let r = interpreter.interpret(&b_code);

    assert_eq!(Some(2), r);
}

#[test]
fn mod_write_var() {
    let b_code: Vec<ByteCode> = vec![
        ByteCode {
            instruction: Instruction::LOAD_VAL(2),
        },
        ByteCode {
            instruction: Instruction::WRITE_VAR("x".to_string()),
        },
        ByteCode {
            instruction: Instruction::LOAD_VAL(44),
        },
        ByteCode {
            instruction: Instruction::WRITE_VAR("y".to_string()),
        },
        ByteCode {
            instruction: Instruction::RETURN_VALUE,
        },
    ];
    let mut interpreter = Interpreter::new();
    let r = interpreter.interpret(&b_code);
    assert_eq!(None, r);
}

#[test]
fn mod_read_var() {
    let b_code: Vec<ByteCode> = vec![
        ByteCode {
            instruction: Instruction::LOAD_VAL(2),
        },
        ByteCode {
            instruction: Instruction::WRITE_VAR("x".to_string()),
        },
        ByteCode {
            instruction: Instruction::READ_VAR("x".to_string()),
        },
        ByteCode {
            instruction: Instruction::RETURN_VALUE,
        },
    ];
    let mut interpreter = Interpreter::new();
    let r = interpreter.interpret(&b_code);

    assert_eq!(Some(2), r);
}

#[test]
fn mod_loop_prog() {
    let b_code: Vec<ByteCode> = vec![
        ByteCode {
            instruction: Instruction::LOAD_VAL(2),
        },
        ByteCode {
            instruction: Instruction::LOOP(3),
        },
        ByteCode {
            instruction: Instruction::LOAD_VAL(2),
        },
        ByteCode {
            instruction: Instruction::ADD,
        },
        ByteCode {
            instruction: Instruction::IF_NOT_EQUAL,
        },
        ByteCode {
            instruction: Instruction::JUMP(3),
        },
        ByteCode {
            instruction: Instruction::RETURN_VALUE,
        },
    ];
    let mut interpreter = Interpreter::new();
    let r = interpreter.interpret(&b_code);

    assert_eq!(Some(10), r);
}

#[test]
fn main_load_val() {
    let b_code: Vec<ByteCode> = vec![
        ByteCode {
            instruction: Instruction::LOAD_VAL(2),
        },
        ByteCode {
            instruction: Instruction::RETURN_VALUE,
        },
    ];
    let r = interpreter(&b_code);

    println!("{:?}", r);

    assert_eq!(Some(2), r);
}

#[test]
fn main_write_var() {
    let b_code: Vec<ByteCode> = vec![
        ByteCode {
            instruction: Instruction::LOAD_VAL(2),
        },
        ByteCode {
            instruction: Instruction::WRITE_VAR("x".to_string()),
        },
        ByteCode {
            instruction: Instruction::LOAD_VAL(44),
        },
        ByteCode {
            instruction: Instruction::WRITE_VAR("y".to_string()),
        },
        ByteCode {
            instruction: Instruction::RETURN_VALUE,
        },
    ];
    let r = interpreter(&b_code);
    println!("{:?}", r);
    assert_eq!(None, r);
}

#[test]
fn main_read_var() {
    let b_code: Vec<ByteCode> = vec![
        ByteCode {
            instruction: Instruction::LOAD_VAL(2),
        },
        ByteCode {
            instruction: Instruction::WRITE_VAR("x".to_string()),
        },
        ByteCode {
            instruction: Instruction::READ_VAR("x".to_string()),
        },
        ByteCode {
            instruction: Instruction::RETURN_VALUE,
        },
    ];
    let r = interpreter(&b_code);

    println!("{:?}", r);

    assert_eq!(Some(2), r);
}

#[test]
fn main_loop_prog() {
    let b_code: Vec<ByteCode> = vec![
        ByteCode {
            instruction: Instruction::LOAD_VAL(2),
        },
        ByteCode {
            instruction: Instruction::LOOP(1),
        },
        ByteCode {
            instruction: Instruction::LOAD_VAL(2),
        },
        ByteCode {
            instruction: Instruction::ADD,
        },
        ByteCode {
            instruction: Instruction::IF_NOT_EQUAL,
        },
        ByteCode {
            instruction: Instruction::JUMP(3),
        },
        ByteCode {
            instruction: Instruction::RETURN_VALUE,
        },
    ];
    let r = interpreter(&b_code);

    println!("{:?}", r);

    assert_eq!(Some(6), r);
}
