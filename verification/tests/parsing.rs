use stack_vm::fault::Fault;
use stack_vm::instruction::{Instruction, Operand};
use stack_vm::machine::VM;
use stack_vm::parser::{extract_var_name, parse_instruction, parse_operand};

fn var(name: &str) -> Operand {
    Operand::Var(name.to_string())
}

fn lines(text: &[&str]) -> Vec<String> {
    text.iter().map(|line| line.to_string()).collect()
}

fn program_of(text: &[&str]) -> Result<Vec<Instruction>, Fault> {
    VM::load_program(&lines(text))
}

#[test]
fn extract_var_name_takes_the_wrapping_off() {
    assert_eq!(extract_var_name("Var(\"x\")"), "x");
    assert_eq!(extract_var_name("x"), "x");
    assert_eq!(extract_var_name("12"), "12");
    assert_eq!(extract_var_name("Var(\"count"), "count");
    assert_eq!(extract_var_name("count\")"), "count");
    assert_eq!(extract_var_name(""), "");
}

#[test]
fn extract_var_name_takes_every_copy_off() {
    assert_eq!(extract_var_name("Var(\"Var(\"x\")\")"), "x");
    assert_eq!(extract_var_name("Var(\"Var(\""), "");
    assert_eq!(extract_var_name("\")\")"), "");
    assert_eq!(extract_var_name("Var(\")"), ")");
    assert_eq!(extract_var_name("Var(\"\")"), "");
    assert_eq!(extract_var_name("xVar(\"y\")z"), "xVar(\"y\")z");
    assert_eq!(extract_var_name("var(\"x\")"), "var(\"x");
}

#[test]
fn extract_var_name_agrees_with_the_standard_trims() {
    let texts = [
        "", "x", "Var(\"x\")", "Var(\"", "\")", "Var(\"\")", "Var(\")", "Var(\"Var(\"a\")\")",
        "Var(Var(\"b\")", "\"\")", "Var(\"é\")", "V", "Va", "Var", "Var(", ")", "\"",
        "Var(\"Var(\"Var(\"", "\")\")\")", "aVar(\"", "\")a",
    ];
    for text in texts {
        let expected = text.trim_start_matches("Var(\"").trim_end_matches("\")");
        assert_eq!(extract_var_name(text), expected, "{:?}", text);
    }
}

#[test]
fn parse_operand_tells_numbers_from_names() {
    assert_eq!(parse_operand("5"), Operand::Value(5));
    assert_eq!(parse_operand("-5"), Operand::Value(-5));
    assert_eq!(parse_operand("+5"), Operand::Value(5));
    assert_eq!(parse_operand("x"), var("x"));
    assert_eq!(parse_operand("x1"), var("x1"));
    assert_eq!(parse_operand("1x"), var("1x"));
    assert_eq!(parse_operand(""), var(""));
    assert_eq!(parse_operand("2147483647"), Operand::Value(i32::MAX));
    assert_eq!(parse_operand("2147483648"), var("2147483648"));
}

#[test]
fn parse_instruction_reads_every_opcode() {
    assert_eq!(parse_instruction("PUSH 3"), Ok(vec![Instruction::Push(3)]));
    assert_eq!(parse_instruction("PUSH -3"), Ok(vec![Instruction::Push(-3)]));
    assert_eq!(
        parse_instruction("ADD 1 x"),
        Ok(vec![Instruction::Add(Operand::Value(1), var("x"))])
    );
    assert_eq!(
        parse_instruction("SUB x 1"),
        Ok(vec![Instruction::Sub(var("x"), Operand::Value(1))])
    );
    assert_eq!(parse_instruction("MUL a b"), Ok(vec![Instruction::Mul(var("a"), var("b"))]));
    assert_eq!(
        parse_instruction("DIV 7 -2"),
        Ok(vec![Instruction::Div(Operand::Value(7), Operand::Value(-2))])
    );
    assert_eq!(parse_instruction("PRINT"), Ok(vec![Instruction::Print]));
    assert_eq!(parse_instruction("SET x 9"), Ok(vec![Instruction::SetVar("x".to_string(), 9)]));
    assert_eq!(parse_instruction("GET x"), Ok(vec![Instruction::Get("x".to_string())]));
    assert_eq!(parse_instruction("Input x"), Ok(vec![Instruction::Input("x".to_string())]));
}

#[test]
fn parse_instruction_splits_at_any_white_space() {
    assert_eq!(parse_instruction("  PUSH\t3  "), Ok(vec![Instruction::Push(3)]));
    assert_eq!(
        parse_instruction("\tSET\u{3000}total   12\r"),
        Ok(vec![Instruction::SetVar("total".to_string(), 12)])
    );
}

#[test]
fn parse_instruction_takes_tagged_operands() {
    assert_eq!(
        parse_instruction("ADD Var(\"x\") Var(\"y\")"),
        Ok(vec![Instruction::Add(var("x"), var("y"))])
    );
    assert_eq!(
        parse_instruction("SUB Var(\"7\") 2"),
        Ok(vec![Instruction::Sub(Operand::Value(7), Operand::Value(2))])
    );
}

#[test]
fn parse_instruction_keeps_the_wrapping_of_names_that_are_no_operands() {
    assert_eq!(
        parse_instruction("GET Var(\"x\")"),
        Ok(vec![Instruction::Get("Var(\"x\")".to_string())])
    );
    assert_eq!(
        parse_instruction("SET Var(\"x\") 1"),
        Ok(vec![Instruction::SetVar("Var(\"x\")".to_string(), 1)])
    );
}

#[test]
fn parse_instruction_passes_over_what_is_no_instruction() {
    assert_eq!(parse_instruction(""), Ok(vec![]));
    assert_eq!(parse_instruction("   "), Ok(vec![]));
    assert_eq!(parse_instruction("FOO 1 2"), Ok(vec![]));
    assert_eq!(parse_instruction("push 1"), Ok(vec![]));
    assert_eq!(parse_instruction("INPUT x"), Ok(vec![]));
    assert_eq!(parse_instruction("input x"), Ok(vec![]));
    assert_eq!(parse_instruction("PUSH"), Ok(vec![]));
    assert_eq!(parse_instruction("PUSH 1 2"), Ok(vec![]));
    assert_eq!(parse_instruction("ADD 1"), Ok(vec![]));
    assert_eq!(parse_instruction("ADD 1 2 3"), Ok(vec![]));
    assert_eq!(parse_instruction("PRINT 1"), Ok(vec![]));
    assert_eq!(parse_instruction("SET x"), Ok(vec![]));
    assert_eq!(parse_instruction("GET"), Ok(vec![]));
    assert_eq!(parse_instruction("GET x y"), Ok(vec![]));
    assert_eq!(parse_instruction("Input"), Ok(vec![]));
    assert_eq!(parse_instruction("IF"), Ok(vec![]));
    assert_eq!(parse_instruction("ELSE"), Ok(vec![]));
    assert_eq!(parse_instruction("ENDIF"), Ok(vec![]));
    assert_eq!(parse_instruction("# PUSH 1"), Ok(vec![]));
}

#[test]
fn parse_instruction_fails_on_a_bad_number() {
    assert_eq!(parse_instruction("PUSH abc"), Err(Fault::InvalidNumber));
    assert_eq!(parse_instruction("PUSH 2147483648"), Err(Fault::InvalidNumber));
    assert_eq!(parse_instruction("PUSH 1.0"), Err(Fault::InvalidNumber));
    assert_eq!(parse_instruction("SET x y"), Err(Fault::InvalidNumber));
    assert_eq!(parse_instruction("SET x -2147483649"), Err(Fault::InvalidNumber));
    assert_eq!(parse_instruction("SET 1 2"), Ok(vec![Instruction::SetVar("1".to_string(), 2)]));
}

#[test]
fn load_program_keeps_the_order_of_lines() {
    assert_eq!(
        program_of(&["PUSH 1", "PUSH 2", "ADD 1 2", "PRINT"]),
        Ok(vec![
            Instruction::Push(1),
            Instruction::Push(2),
            Instruction::Add(Operand::Value(1), Operand::Value(2)),
            Instruction::Print,
        ])
    );
    assert_eq!(program_of(&[]), Ok(vec![]));
}

#[test]
fn load_program_gathers_an_if_block() {
    assert_eq!(
        program_of(&["PUSH 1", "IF", "PUSH 42", "PRINT", "ENDIF"]),
        Ok(vec![
            Instruction::Push(1),
            Instruction::If(vec![Instruction::Push(42), Instruction::Print], vec![]),
        ])
    );
}

#[test]
fn load_program_turns_a_loose_else_block_into_else() {
    assert_eq!(
        program_of(&["PUSH 0", "IF", "PUSH 1", "ENDIF", "ELSE", "PUSH 99", "PRINT", "ENDIF"]),
        Ok(vec![
            Instruction::Push(0),
            Instruction::If(vec![Instruction::Push(1)], vec![]),
            Instruction::Else(vec![Instruction::Push(99), Instruction::Print]),
        ])
    );
}

#[test]
fn load_program_closes_an_else_inside_an_if_as_else() {
    assert_eq!(
        program_of(&["IF", "PUSH 1", "ELSE", "PUSH 2", "ENDIF", "PUSH 3"]),
        Ok(vec![Instruction::Else(vec![Instruction::Push(2)]), Instruction::Push(3)])
    );
}

#[test]
fn load_program_folds_an_earlier_else_into_the_if() {
    assert_eq!(
        program_of(&["ELSE", "PUSH 99", "PRINT", "IF", "PUSH 1", "ENDIF"]),
        Ok(vec![Instruction::If(
            vec![Instruction::Push(1)],
            vec![Instruction::Push(99), Instruction::Print],
        )])
    );
}

#[test]
fn load_program_empties_both_blocks_when_one_closes() {
    assert_eq!(
        program_of(&["IF", "PUSH 1", "ELSE", "PUSH 2", "ENDIF", "IF", "PUSH 3", "ENDIF"]),
        Ok(vec![
            Instruction::Else(vec![Instruction::Push(2)]),
            Instruction::If(vec![Instruction::Push(3)], vec![]),
        ])
    );
}

#[test]
fn load_program_flattens_nested_blocks() {
    assert_eq!(
        program_of(&["IF", "PUSH 1", "IF", "PUSH 2", "ENDIF", "PUSH 3", "ENDIF"]),
        Ok(vec![
            Instruction::If(vec![Instruction::Push(1), Instruction::Push(2)], vec![]),
            Instruction::Push(3),
        ])
    );
}

#[test]
fn load_program_drops_a_block_that_is_never_closed() {
    assert_eq!(program_of(&["PUSH 1", "IF", "PUSH 2", "PRINT"]), Ok(vec![Instruction::Push(1)]));
    assert_eq!(program_of(&["ELSE", "PUSH 2"]), Ok(vec![]));
}

#[test]
fn load_program_reads_block_words_by_their_first_word_only() {
    assert_eq!(
        program_of(&["  IF  anything", "PUSH 1", "ENDIF now"]),
        Ok(vec![Instruction::If(vec![Instruction::Push(1)], vec![])])
    );
    assert_eq!(program_of(&["ENDIF", "PUSH 1"]), Ok(vec![Instruction::Push(1)]));
    assert_eq!(program_of(&["if", "PUSH 1", "endif"]), Ok(vec![Instruction::Push(1)]));
}

#[test]
fn load_program_skips_an_unparseable_line() {
    let with = program_of(&["PUSH 1", "FOO 1 2", "PUSH 2", "IF", "bar", "PRINT", "ENDIF", ""]);
    let without = program_of(&["PUSH 1", "PUSH 2", "IF", "PRINT", "ENDIF"]);
    assert_eq!(with, without);
    assert_eq!(
        with,
        Ok(vec![
            Instruction::Push(1),
            Instruction::Push(2),
            Instruction::If(vec![Instruction::Print], vec![]),
        ])
    );
}

#[test]
fn load_program_fails_on_the_first_bad_number() {
    assert_eq!(program_of(&["PUSH 1", "PUSH one", "PRINT"]), Err(Fault::InvalidNumber));
    assert_eq!(program_of(&["IF", "SET x y", "ENDIF"]), Err(Fault::InvalidNumber));
    assert_eq!(program_of(&["IF", "SET x y"]), Err(Fault::InvalidNumber));
    assert_eq!(program_of(&["IF PUSH x", "ELSE PUSH y", "ENDIF"]), Ok(vec![Instruction::Else(vec![])]));
}

#[test]
fn cloned_instructions_are_equal() {
    let program = program_of(&["ELSE", "PUSH 9", "IF", "ADD x 1", "SET y 2", "ENDIF", "GET y"])
        .unwrap();
    let copy = program.clone();
    assert_eq!(program, copy);
    let copy = stack_vm::instruction::clone_block(&program);
    assert_eq!(program, copy);
}
