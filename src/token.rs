//! Instructions, their source-annotated form, the two error taxonomies, and the
//! mathematical views the contracts speak of.
use vstd::prelude::*;
use crate::text::{chars_of, decimal, lower_of, lowercase, push_decimal, string_of};

verus! {

/// The two arithmetic operations; both wrap modulo 256.
#[derive(Debug, Clone, Copy, PartialEq, Eq, Structural)]
pub enum BinOp {
    Add,
    Sub,
}

/// One instruction of the machine.
#[derive(Debug, Clone)]
pub enum Token {
    Push(u8),
    Pop,
    Dup,
    Swap,
    Rotate,
    Over,
    Pick(usize),
    BinOp(BinOp),
    PrintByte,
    PrintChar,
    If,
    Else,
    Then,
    Call(String),
    Return,
    Halt,
}

/// An instruction with the 1-based number of the source line it came from.
#[derive(Debug, Clone)]
pub struct AnnotatedToken {
    pub token: Token,
    pub line_number: usize,
}

/// Errors of execution; each carries the instruction that failed.
#[derive(Debug)]
pub enum RuntimeError {
    StackOverflow(AnnotatedToken),
    StackUnderflow(AnnotatedToken),
    InvalidLabel(AnnotatedToken),
    CallStackUnderflow(AnnotatedToken),
    UnclosedIfStatement(AnnotatedToken),
}

/// Errors of parsing; each carries the offending line.
#[derive(Debug)]
pub enum ParseError {
    InvalidArgument(String, usize),
    MissingArgument(String, usize),
    DuplicateLabel(String, usize),
    InvalidCall(String, usize),
    ElseWithoutIfStatement(AnnotatedToken),
    ThenWithoutIfStatement(AnnotatedToken),
    TooManyElseStatements(AnnotatedToken),
}

/// The view of a `Token`: labels as character sequences.
pub enum Op {
    Push(u8),
    Pop,
    Dup,
    Swap,
    Rotate,
    Over,
    Pick(usize),
    BinOp(BinOp),
    PrintByte,
    PrintChar,
    If,
    Else,
    Then,
    Call(Seq<char>),
    Return,
    Halt,
}

/// The view of an `AnnotatedToken`.
pub struct Instr {
    pub op: Op,
    pub line_number: usize,
}

/// The view of a `ParseError`.
pub enum ParseFault {
    InvalidArgument(Seq<char>, usize),
    MissingArgument(Seq<char>, usize),
    DuplicateLabel(Seq<char>, usize),
    InvalidCall(Seq<char>, usize),
    ElseWithoutIfStatement(Instr),
    ThenWithoutIfStatement(Instr),
    TooManyElseStatements(Instr),
}

impl View for Token {
    type V = Op;

    open spec fn view(&self) -> Op {
        match self {
            Token::Push(n) => Op::Push(*n),
            Token::Pop => Op::Pop,
            Token::Dup => Op::Dup,
            Token::Swap => Op::Swap,
            Token::Rotate => Op::Rotate,
            Token::Over => Op::Over,
            Token::Pick(n) => Op::Pick(*n),
            Token::BinOp(b) => Op::BinOp(*b),
            Token::PrintByte => Op::PrintByte,
            Token::PrintChar => Op::PrintChar,
            Token::If => Op::If,
            Token::Else => Op::Else,
            Token::Then => Op::Then,
            Token::Call(l) => Op::Call(l@),
            Token::Return => Op::Return,
            Token::Halt => Op::Halt,
        }
    }
}

impl View for AnnotatedToken {
    type V = Instr;

    open spec fn view(&self) -> Instr {
        Instr { op: self.token@, line_number: self.line_number }
    }
}

impl View for ParseError {
    type V = ParseFault;

    open spec fn view(&self) -> ParseFault {
        match self {
            ParseError::InvalidArgument(s, n) => ParseFault::InvalidArgument(s@, *n),
            ParseError::MissingArgument(s, n) => ParseFault::MissingArgument(s@, *n),
            ParseError::DuplicateLabel(s, n) => ParseFault::DuplicateLabel(s@, *n),
            ParseError::InvalidCall(s, n) => ParseFault::InvalidCall(s@, *n),
            ParseError::ElseWithoutIfStatement(t) => ParseFault::ElseWithoutIfStatement(t@),
            ParseError::ThenWithoutIfStatement(t) => ParseFault::ThenWithoutIfStatement(t@),
            ParseError::TooManyElseStatements(t) => ParseFault::TooManyElseStatements(t@),
        }
    }
}

/// The lower-case text of an instruction, as a trace shows it; a call shows its label.
pub open spec fn op_text(op: Op) -> Seq<char> {
    match op {
        Op::Push(n) => "push "@ + decimal(n as nat),
        Op::Pop => "pop"@,
        Op::Dup => "dup"@,
        Op::Swap => "swap"@,
        Op::Rotate => "rotate"@,
        Op::Over => "over"@,
        Op::Pick(n) => "pick "@ + decimal(n as nat),
        Op::BinOp(BinOp::Add) => "add"@,
        Op::BinOp(BinOp::Sub) => "sub"@,
        Op::PrintByte => "print_byte"@,
        Op::PrintChar => "print_char"@,
        Op::If => "if"@,
        Op::Else => "else"@,
        Op::Then => "then"@,
        Op::Call(l) => lower_of(l),
        Op::Return => "return"@,
        Op::Halt => "halt"@,
    }
}

impl Token {
    /// The instruction as lower-case text.
    pub fn to_string(&self) -> (r: String)
        ensures
            r@ == op_text(self@),
    {
        match self {
            Token::Push(n) => {
                let mut v = chars_of("push ");
                push_decimal(&mut v, *n as usize);
                string_of(&v)
            },
            Token::Pop => String::from_str("pop"),
            Token::Dup => String::from_str("dup"),
            Token::Swap => String::from_str("swap"),
            Token::Rotate => String::from_str("rotate"),
            Token::Over => String::from_str("over"),
            Token::Pick(n) => {
                let mut v = chars_of("pick ");
                push_decimal(&mut v, *n);
                string_of(&v)
            },
            Token::BinOp(op) => match op {
                BinOp::Add => String::from_str("add"),
                BinOp::Sub => String::from_str("sub"),
            },
            Token::PrintByte => String::from_str("print_byte"),
            Token::PrintChar => String::from_str("print_char"),
            Token::If => String::from_str("if"),
            Token::Else => String::from_str("else"),
            Token::Then => String::from_str("then"),
            Token::Call(label) => lowercase(label.as_str()),
            Token::Return => String::from_str("return"),
            Token::Halt => String::from_str("halt"),
        }
    }

    /// A copy equal to this instruction.
    pub fn copied(&self) -> (r: Token)
        ensures
            r == *self,
    {
        match self {
            Token::Push(n) => Token::Push(*n),
            Token::Pop => Token::Pop,
            Token::Dup => Token::Dup,
            Token::Swap => Token::Swap,
            Token::Rotate => Token::Rotate,
            Token::Over => Token::Over,
            Token::Pick(n) => Token::Pick(*n),
            Token::BinOp(b) => Token::BinOp(*b),
            Token::PrintByte => Token::PrintByte,
            Token::PrintChar => Token::PrintChar,
            Token::If => Token::If,
            Token::Else => Token::Else,
            Token::Then => Token::Then,
            Token::Call(l) => Token::Call(l.clone()),
            Token::Return => Token::Return,
            Token::Halt => Token::Halt,
        }
    }
}

impl AnnotatedToken {
    /// A copy equal to this annotated instruction.
    pub fn copied(&self) -> (r: AnnotatedToken)
        ensures
            r == *self,
    {
        AnnotatedToken { token: self.token.copied(), line_number: self.line_number }
    }
}

} // verus!
