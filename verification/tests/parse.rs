use register_machine::error::ErrorKind;
use register_machine::instruction::{Arg, Instruction};
use register_machine::parse::{abstracted, parse_instruction, split_line};

#[test]
fn parse_test() {
    let res = parse_instruction("nop").unwrap();
    let empty: Vec<String> = Vec::new();
    let op = String::from("nop");
    assert_eq!(res, (op, empty));
}

#[test]
fn multi_arg_parse_test() {
    let res = parse_instruction("mov 3 x1").unwrap();
    let args: Vec<String> = Vec::from([String::from("3"), String::from("x1")]);
    let op = String::from("mov");
    assert_eq!(res, (op, args));
}

#[test]
fn branch_arg_parse_test() {
    let res = parse_instruction("+ jmp end").unwrap();
    let args: Vec<String> = Vec::from([String::from("+"), String::from("end")]);
    let op = String::from("jmp");
    assert_eq!(res, (op, args));
}

#[test]
fn abstracted_test() {
    assert_eq!(
        abstracted(parse_instruction("nop").unwrap()).unwrap().unwrap(),
        (Instruction::Nop, vec![])
    );

    assert_eq!(
        abstracted(parse_instruction("add 1").unwrap()).unwrap().unwrap(),
        (Instruction::Add, vec![Arg::Number(1)])
    );

    assert_eq!(
        abstracted(parse_instruction("add x1").unwrap()).unwrap().unwrap(),
        (Instruction::Add, vec![Arg::Register(String::from("x1"))])
    );

    assert_eq!(
        abstracted(parse_instruction("jmp end").unwrap()).unwrap().unwrap(),
        (Instruction::Jmp, vec![Arg::Label(String::from("end"))])
    );

    assert_eq!(
        abstracted(parse_instruction("teq acc 5").unwrap()).unwrap().unwrap(),
        (
            Instruction::Teq,
            vec![Arg::Register(String::from("acc")), Arg::Number(5)]
        )
    );

    assert_eq!(
        abstracted(parse_instruction("mov acc x1").unwrap()).unwrap().unwrap(),
        (
            Instruction::Mov,
            vec![
                Arg::Register(String::from("acc")),
                Arg::Register(String::from("x1"))
            ]
        )
    );

    assert_eq!(
        abstracted(parse_instruction("+ add 3").unwrap()).unwrap().unwrap(),
        (Instruction::Add, vec![Arg::Number(3), Arg::BranchTrue,])
    );
}

#[test]
fn split_line_blank_gives_empty_head() {
    assert_eq!(split_line(""), Ok((String::new(), Vec::new())));
    assert_eq!(split_line("  \t "), Ok((String::new(), Vec::new())));
    assert_eq!(abstracted(split_line("").unwrap()), Ok(None));
}

#[test]
fn unknown_mnemonic_is_reported() {
    let lexed = split_line("frob 1 2").unwrap();
    assert_eq!(abstracted(lexed), Err(ErrorKind::UnknownInstruction));
}
