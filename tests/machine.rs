use stack_vm::program::Program;
use stack_vm::token::{AnnotatedToken, BinOp, ParseError, RuntimeError, Token};

fn parsed(source: &str, stack_size: usize) -> Program {
    let mut p = Program::new(source, stack_size);
    p.parse().expect("program should parse");
    p
}

fn run(p: &mut Program) -> Result<(), RuntimeError> {
    let mut steps = 0;
    while !p.halted && p.pc < p.tokens.len() {
        p.step()?;
        steps += 1;
        assert!(steps < 10_000, "program does not stop");
    }
    Ok(())
}

fn stack_of(p: &Program) -> Vec<u8> {
    p._stack().to_vec()
}

#[test]
fn add_and_print_halts_with_sum() {
    let mut p = parsed("PUSH 5\nPUSH 3\nADD\nPRINT_BYTE\nHALT", 16);
    run(&mut p).unwrap();
    assert!(p.halted);
    assert_eq!(p.output, "8");
    assert!(stack_of(&p).is_empty());
}

#[test]
fn false_condition_takes_else_branch() {
    let mut p = parsed("PUSH 0\nIF\nPUSH 1\nELSE\nPUSH 2\nTHEN\nPRINT_BYTE\nHALT", 16);
    run(&mut p).unwrap();
    assert_eq!(p.output, "2");
    assert_eq!(stack_of(&p), vec![0]);
}

#[test]
fn true_condition_takes_then_branch() {
    let mut p = parsed("PUSH 4\nIF\nPUSH 1\nELSE\nPUSH 2\nTHEN\nPRINT_BYTE\nHALT", 16);
    run(&mut p).unwrap();
    assert_eq!(p.output, "1");
    assert_eq!(stack_of(&p), vec![4]);
}

#[test]
fn nested_conditionals_are_skipped_whole() {
    let src = "PUSH 0\nIF\nPUSH 1\nIF\nPUSH 7\nELSE\nPUSH 8\nTHEN\nELSE\nPUSH 9\nTHEN\nPRINT_BYTE\nHALT";
    let mut p = parsed(src, 16);
    run(&mut p).unwrap();
    assert_eq!(p.output, "9");
}

#[test]
fn call_returns_after_the_call() {
    let mut p = parsed("FOO\nPRINT_BYTE\nHALT\nFOO:\nPUSH 9\nRETURN", 16);
    run(&mut p).unwrap();
    assert_eq!(p.output, "9");
    assert!(p.halted);
    assert_eq!(p.pc, 2);
}

#[test]
fn call_is_no_mnemonic() {
    let mut p = Program::new("CALL FOO\nPRINT_BYTE\nHALT\nFOO:\nPUSH 9\nRETURN", 16);
    match p.parse() {
        Err(ParseError::InvalidCall(name, line)) => {
            assert_eq!(name, "CALL");
            assert_eq!(line, 1);
        }
        other => panic!("unexpected {:?}", other),
    }
}

#[test]
fn unclosed_if_with_false_condition_fails() {
    let mut p = parsed("PUSH 0\nIF\nPUSH 1\nHALT", 16);
    p.step().unwrap();
    let r = p.step();
    match r {
        Err(RuntimeError::UnclosedIfStatement(t)) => assert_eq!(t.line_number, 2),
        other => panic!("unexpected {:?}", other),
    }
    assert_eq!(p.pc, 1);
}

#[test]
fn unclosed_else_fails() {
    let mut p = Program::new("", 16);
    p.tokens.push(AnnotatedToken { token: Token::Else, line_number: 1 });
    p.tokens.push(AnnotatedToken { token: Token::Halt, line_number: 2 });
    assert!(matches!(p.step(), Err(RuntimeError::UnclosedIfStatement(_))));
    assert_eq!(p.pc, 0);
}

#[test]
fn pushes_up_to_capacity_then_overflow() {
    let mut p = parsed("PUSH 1\nPUSH 2\nPUSH 3\nPUSH 4", 3);
    for k in 1..=3 {
        p.step().unwrap();
        assert_eq!(p.stack.len(), k);
    }
    let r = p.step();
    match r {
        Err(RuntimeError::StackOverflow(t)) => assert_eq!(t.line_number, 4),
        other => panic!("unexpected {:?}", other),
    }
    assert_eq!(stack_of(&p), vec![1, 2, 3]);
    assert_eq!(p.pc, 3);
}

#[test]
fn too_few_operands_underflow_without_change() {
    let cases = [
        ("POP", 0),
        ("DUP", 0),
        ("SWAP", 1),
        ("OVER", 1),
        ("ROTATE", 2),
        ("PICK 1", 1),
        ("PICK 0", 0),
        ("ADD", 1),
        ("SUB", 1),
        ("PRINT_BYTE", 0),
        ("PRINT_CHAR", 0),
        ("IF\nTHEN", 0),
    ];
    for (op, depth) in cases.iter() {
        let mut src = String::new();
        for _ in 0..*depth {
            src.push_str("PUSH 7\n");
        }
        src.push_str(op);
        let mut p = parsed(&src, 16);
        for _ in 0..*depth {
            p.step().unwrap();
        }
        let before_stack = stack_of(&p);
        let before_pc = p.pc;
        match p.step() {
            Err(RuntimeError::StackUnderflow(t)) => assert_eq!(t.line_number, depth + 1),
            other => panic!("{}: unexpected {:?}", op, other),
        }
        assert_eq!(stack_of(&p), before_stack, "{}", op);
        assert_eq!(p.pc, before_pc, "{}", op);
        assert!(p.output.is_empty());
    }
}

#[test]
fn add_commutes_and_wraps() {
    let mut a = parsed("PUSH 200\nPUSH 100\nADD", 4);
    run(&mut a).unwrap();
    let mut b = parsed("PUSH 100\nPUSH 200\nADD", 4);
    run(&mut b).unwrap();
    assert_eq!(stack_of(&a), vec![44]);
    assert_eq!(stack_of(&a), stack_of(&b));
}

#[test]
fn sub_is_bottom_minus_top() {
    let mut a = parsed("PUSH 10\nPUSH 3\nSUB", 4);
    run(&mut a).unwrap();
    assert_eq!(stack_of(&a), vec![7]);
    let mut b = parsed("PUSH 3\nPUSH 10\nSUB", 4);
    run(&mut b).unwrap();
    assert_eq!(stack_of(&b), vec![249]);
}

#[test]
fn pick_zero_matches_dup() {
    let mut a = parsed("PUSH 1\nPUSH 6\nPICK 0", 8);
    run(&mut a).unwrap();
    let mut b = parsed("PUSH 1\nPUSH 6\nDUP", 8);
    run(&mut b).unwrap();
    assert_eq!(stack_of(&a), vec![1, 6, 6]);
    assert_eq!(stack_of(&a), stack_of(&b));
}

#[test]
fn stack_shuffles() {
    let mut p = parsed("PUSH 1\nPUSH 2\nPUSH 3\nROTATE", 8);
    run(&mut p).unwrap();
    assert_eq!(stack_of(&p), vec![2, 3, 1]);
    let mut p = parsed("PUSH 1\nPUSH 2\nSWAP\nOVER", 8);
    run(&mut p).unwrap();
    assert_eq!(stack_of(&p), vec![2, 1, 2]);
    let mut p = parsed("PUSH 1\nPUSH 2\nPUSH 3\nPICK 2\nPOP\nPICK 1", 8);
    run(&mut p).unwrap();
    assert_eq!(stack_of(&p), vec![1, 2, 3, 2]);
}

#[test]
fn print_char_emits_the_code_point() {
    let mut p = parsed("PUSH 72\nPRINT_CHAR\nPUSH 105\nPRINT_CHAR\nPUSH 233\nPRINT_CHAR\nPUSH 255\nPRINT_BYTE", 8);
    run(&mut p).unwrap();
    assert_eq!(p.output, "Hi\u{e9}255");
}

#[test]
fn halt_is_final() {
    let mut p = parsed("HALT\nPUSH 1", 8);
    p.step().unwrap();
    assert!(p.halted);
    p.step().unwrap();
    assert_eq!(p.pc, 0);
    assert!(stack_of(&p).is_empty());
}

#[test]
fn step_past_the_end_does_nothing() {
    let mut p = parsed("PUSH 1", 8);
    p.step().unwrap();
    assert_eq!(p.pc, 1);
    p.step().unwrap();
    assert_eq!(p.pc, 1);
    assert!(!p.halted);
}

#[test]
fn return_without_call_underflows() {
    let mut p = parsed("RETURN", 8);
    assert!(matches!(p.step(), Err(RuntimeError::CallStackUnderflow(_))));
    assert_eq!(p.pc, 0);
}

#[test]
fn call_to_unknown_label_at_run_time() {
    let mut p = Program::new("", 8);
    p.tokens.push(AnnotatedToken { token: Token::Call("NOWHERE".to_string()), line_number: 1 });
    assert!(matches!(p.step(), Err(RuntimeError::InvalidLabel(_))));
    assert_eq!(p.pc, 0);
}

#[test]
fn labels_are_case_insensitive_and_unique() {
    let mut p = Program::new("loop:\nPUSH 1\nLOOP:\nHALT", 8);
    match p.parse() {
        Err(ParseError::DuplicateLabel(name, line)) => {
            assert_eq!(name, "LOOP:");
            assert_eq!(line, 3);
        }
        other => panic!("unexpected {:?}", other),
    }
}

#[test]
fn lower_case_call_reaches_upper_case_label() {
    let mut p = parsed("work\nhalt\nWork:\npush 4\nprint_byte\nreturn", 8);
    run(&mut p).unwrap();
    assert_eq!(p.output, "4");
}

#[test]
fn undeclared_call_is_a_parse_error() {
    let mut p = Program::new("PUSH 1\nfoo\nHALT", 8);
    match p.parse() {
        Err(ParseError::InvalidCall(name, line)) => {
            assert_eq!(name, "FOO");
            assert_eq!(line, 2);
        }
        other => panic!("unexpected {:?}", other),
    }
}

#[test]
fn push_argument_errors() {
    let mut p = Program::new("PUSH", 8);
    match p.parse() {
        Err(ParseError::MissingArgument(t, 1)) => assert_eq!(t, "PUSH"),
        other => panic!("unexpected {:?}", other),
    }
    let mut p = Program::new("\n  push 256", 8);
    match p.parse() {
        Err(ParseError::InvalidArgument(a, 2)) => assert_eq!(a, "256"),
        other => panic!("unexpected {:?}", other),
    }
    let mut p = Program::new("PUSH -1", 8);
    assert!(matches!(p.parse(), Err(ParseError::InvalidArgument(_, 1))));
    let mut p = Program::new("PICK x", 8);
    assert!(matches!(p.parse(), Err(ParseError::InvalidArgument(_, 1))));
    let mut p = Program::new("pick", 8);
    match p.parse() {
        Err(ParseError::MissingArgument(t, 1)) => assert_eq!(t, "pick"),
        other => panic!("unexpected {:?}", other),
    }
}

#[test]
fn push_arguments_that_parse() {
    let p = parsed("PUSH 255\nPUSH +7\nPUSH 007\nPICK 18446744073709551615", 8);
    let got: Vec<String> = p.tokens.iter().map(|t| t.token.to_string()).collect();
    assert_eq!(got, vec!["push 255", "push 7", "push 7", "pick 18446744073709551615"]);
}

#[test]
fn conditional_nesting_errors() {
    let mut p = Program::new("PUSH 1\nELSE", 8);
    match p.parse() {
        Err(ParseError::ElseWithoutIfStatement(t)) => assert_eq!(t.line_number, 2),
        other => panic!("unexpected {:?}", other),
    }
    let mut p = Program::new("THEN", 8);
    assert!(matches!(p.parse(), Err(ParseError::ThenWithoutIfStatement(_))));
    let mut p = Program::new("IF\nELSE\nELSE\nTHEN", 8);
    match p.parse() {
        Err(ParseError::TooManyElseStatements(t)) => assert_eq!(t.line_number, 3),
        other => panic!("unexpected {:?}", other),
    }
}

#[test]
fn nesting_is_checked_before_calls() {
    let mut p = Program::new("foo\nTHEN", 8);
    assert!(matches!(p.parse(), Err(ParseError::ThenWithoutIfStatement(_))));
}

#[test]
fn comments_blank_lines_and_line_numbers() {
    let p = parsed("# a comment\n\n   \n\tPUSH 1 # trailing words\r\nstart:\n#x: not a label\nHALT\n", 8);
    assert_eq!(p.lines.len(), 7);
    assert_eq!(p.tokens.len(), 2);
    assert_eq!(p.tokens[0].line_number, 4);
    assert_eq!(p.tokens[1].line_number, 7);
    assert!(matches!(p.tokens[0].token, Token::Push(1)));
}

#[test]
fn lines_follow_str_lines() {
    let p = Program::new("a\r\nb\n\nc\r", 8);
    assert_eq!(p.lines, vec!["a", "b", "", "c\r"]);
    assert_eq!(p._lines_as_string(), "[\"a\", \"b\", \"\", \"c\\r\"]");
    let p = Program::new("", 8);
    assert!(p.lines.is_empty());
}

#[test]
fn token_text() {
    assert_eq!(Token::Push(42).to_string(), "push 42");
    assert_eq!(Token::Pick(0).to_string(), "pick 0");
    assert_eq!(Token::BinOp(BinOp::Sub).to_string(), "sub");
    assert_eq!(Token::PrintChar.to_string(), "print_char");
    assert_eq!(Token::Call("LOOP".to_string()).to_string(), "loop");
    assert_eq!(Token::Halt.to_string(), "halt");
}

#[test]
fn debug_listings() {
    let mut p = parsed("PUSH 1\nPUSH 20\nPUSH 255", 8);
    assert_eq!(p._stack_as_string(), "[]");
    run(&mut p).unwrap();
    assert_eq!(p._stack_as_string(), "[1, 20, 255]");
    assert_eq!(p._stack_as_string(), format!("{:?}", p.stack));
    assert!(p._tokens_as_string().contains("Push(20)"));
}

#[test]
fn loop_with_labels_counts_down() {
    let src = "PUSH 3\nTOP:\nDUP\nPRINT_BYTE\nPUSH 1\nSUB\nDUP\nIF\nTOP\nTHEN\nHALT";
    let mut p = parsed(src, 8);
    run(&mut p).unwrap();
    assert_eq!(p.output, "321");
}
