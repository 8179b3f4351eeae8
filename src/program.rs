//! The program: its source lines, instructions, label table and runtime state,
//! with the constructor and the single-step interpreter.
use vstd::prelude::*;
use vstd::string::StringExecFns;
use crate::text::{chars_of, decimal, lines_of, push_decimal, split_lines, string_of, views_of};
use crate::token::{AnnotatedToken, Instr, BinOp, RuntimeError, Token};

verus! {

/// A program and the state of its execution.
pub struct Program {
    /// The source lines.
    pub lines: Vec<String>,
    /// The instructions, filled by `parse`.
    pub tokens: Vec<AnnotatedToken>,
    /// The index of the next instruction.
    pub pc: usize,
    /// Label names (upper case) with the index of the instruction that follows each.
    pub labels: Vec<(String, usize)>,
    /// Return addresses.
    pub call_stack: Vec<usize>,
    /// The operand stack; its top is the last element.
    pub stack: Vec<u8>,
    /// How many elements `Push` may fill the stack to.
    pub stack_size: usize,
    /// Set by `Halt`, and never cleared.
    pub halted: bool,
    /// Everything the print instructions have emitted, in order.
    pub output: String,
}

/// What `{:?}` writes for a list of strings with these characters.
pub uninterp spec fn debug_lines(lines: Seq<Seq<char>>) -> Seq<char>;

/// What `{:?}` writes for a list of annotated instructions with these views.
pub uninterp spec fn debug_tokens(tokens: Seq<Instr>) -> Seq<char>;

/// Relies on the `Debug` impls of `Vec` and `String`: the text depends on the
/// characters alone.
#[verifier::external_body]
fn format_lines(lines: &Vec<String>) -> (r: String)
    ensures
        r@ == debug_lines(lines@.map_values(|l: String| l@)),
{
    format!("{:?}", lines)
}

/// Relies on the `Debug` impls of `Vec` and the derived ones of the instruction
/// types: the text depends on their views alone.
#[verifier::external_body]
fn format_tokens(tokens: &Vec<AnnotatedToken>) -> (r: String)
    ensures
        r@ == debug_tokens(tokens@.map_values(|t: AnnotatedToken| t@)),
{
    format!("{:?}", tokens)
}

/// The elements of a byte list in decimal, separated by `, `.
pub open spec fn list_text(s: Seq<u8>) -> Seq<char>
    decreases s.len(),
{
    if s.len() == 0 {
        seq![]
    } else if s.len() == 1 {
        decimal(s[0] as nat)
    } else {
        list_text(s.drop_last()) + seq![',', ' '] + decimal(s.last() as nat)
    }
}

/// The runtime part of a program's state.
pub struct Machine {
    pub pc: usize,
    pub stack: Seq<u8>,
    pub calls: Seq<usize>,
    pub halted: bool,
    pub output: Seq<char>,
}

/// The label table as a map; a later entry for a name overrides an earlier one.
pub open spec fn label_map(ls: Seq<(String, usize)>) -> Map<Seq<char>, usize>
    decreases ls.len(),
{
    if ls.len() == 0 {
        Map::empty()
    } else {
        label_map(ls.drop_last()).insert(ls.last().0@, ls.last().1)
    }
}

proof fn lemma_label_found(ls: Seq<(String, usize)>, i: int)
    requires
        0 <= i < ls.len(),
        forall|j: int| i < j < ls.len() ==> ls[j].0@ != ls[i].0@,
    ensures
        label_map(ls).contains_key(ls[i].0@),
        label_map(ls)[ls[i].0@] == ls[i].1,
    decreases ls.len(),
{
    if i < ls.len() - 1 {
        lemma_label_found(ls.drop_last(), i);
    }
}

proof fn lemma_label_absent(ls: Seq<(String, usize)>, k: Seq<char>)
    requires
        forall|j: int| 0 <= j < ls.len() ==> ls[j].0@ != k,
    ensures
        !label_map(ls).contains_key(k),
    decreases ls.len(),
{
    if ls.len() > 0 {
        lemma_label_absent(ls.drop_last(), k);
    }
}

/// Where the label table sends a name, if anywhere.
pub fn find_label(ls: &Vec<(String, usize)>, name: &String) -> (r: Option<usize>)
    ensures
        r matches Some(p) ==> label_map(ls@).contains_key(name@) && label_map(ls@)[name@] == p,
        r is None ==> !label_map(ls@).contains_key(name@),
{
    let mut i: usize = ls.len();
    while i > 0
        invariant
            i <= ls@.len(),
            forall|j: int| i <= j < ls@.len() ==> ls@[j].0@ != name@,
        decreases i,
    {
        if ls[i - 1].0 == *name {
            proof {
                lemma_label_found(ls@, i - 1);
            }
            return Some(ls[i - 1].1);
        }
        i = i - 1;
    }
    proof {
        lemma_label_absent(ls@, name@);
    }
    None
}

/// The index just past the instruction that ends a block, scanning from `i` with
/// `depth` blocks open: a `Then` that closes the outermost one, or, when
/// `stop_at_else` holds, an `Else` of the outermost one.
pub open spec fn skip_from(code: Seq<AnnotatedToken>, i: nat, depth: nat, stop_at_else: bool) -> Option<nat>
    decreases code.len() - i,
{
    if i >= code.len() {
        None
    } else {
        match code[i as int].token {
            Token::If => skip_from(code, i + 1, depth + 1, stop_at_else),
            Token::Else => if stop_at_else && depth == 1 {
                Some(i + 1)
            } else {
                skip_from(code, i + 1, depth, stop_at_else)
            },
            Token::Then => if depth <= 1 {
                Some(i + 1)
            } else {
                skip_from(code, i + 1, (depth - 1) as nat, stop_at_else)
            },
            _ => skip_from(code, i + 1, depth, stop_at_else),
        }
    }
}

/// The state after the instruction at `m.pc` runs, or the error it fails with.
pub open spec fn next(
    code: Seq<AnnotatedToken>,
    labels: Map<Seq<char>, usize>,
    cap: nat,
    m: Machine,
) -> Result<Machine, RuntimeError> {
    if m.pc >= code.len() || m.halted {
        Ok(m)
    } else {
        let t = code[m.pc as int];
        let s = m.stack;
        let n = s.len();
        let pc1 = (m.pc + 1) as usize;
        match t.token {
            Token::Push(v) => if n < cap {
                Ok(Machine { pc: pc1, stack: s.push(v), ..m })
            } else {
                Err(RuntimeError::StackOverflow(t))
            },
            Token::Pop => if n >= 1 {
                Ok(Machine { pc: pc1, stack: s.drop_last(), ..m })
            } else {
                Err(RuntimeError::StackUnderflow(t))
            },
            Token::Dup => if n >= 1 {
                Ok(Machine { pc: pc1, stack: s.push(s[n - 1]), ..m })
            } else {
                Err(RuntimeError::StackUnderflow(t))
            },
            Token::Swap => if n >= 2 {
                Ok(Machine { pc: pc1, stack: s.subrange(0, n - 2).push(s[n - 1]).push(s[n - 2]), ..m })
            } else {
                Err(RuntimeError::StackUnderflow(t))
            },
            Token::Over => if n >= 2 {
                Ok(Machine { pc: pc1, stack: s.push(s[n - 2]), ..m })
            } else {
                Err(RuntimeError::StackUnderflow(t))
            },
            Token::Rotate => if n >= 3 {
                Ok(
                    Machine {
                        pc: pc1,
                        stack: s.subrange(0, n - 3).push(s[n - 2]).push(s[n - 1]).push(s[n - 3]),
                        ..m
                    },
                )
            } else {
                Err(RuntimeError::StackUnderflow(t))
            },
            Token::Pick(k) => if k < n {
                Ok(Machine { pc: pc1, stack: s.push(s[n - 1 - k]), ..m })
            } else {
                Err(RuntimeError::StackUnderflow(t))
            },
            Token::BinOp(op) => if n >= 2 {
                let top = s[n - 1] as int;
                let bottom = s[n - 2] as int;
                let v = match op {
                    BinOp::Add => (top + bottom) % 256,
                    BinOp::Sub => (bottom - top) % 256,
                };
                Ok(Machine { pc: pc1, stack: s.subrange(0, n - 2).push(v as u8), ..m })
            } else {
                Err(RuntimeError::StackUnderflow(t))
            },
            Token::PrintByte => if n >= 1 {
                Ok(
                    Machine {
                        pc: pc1,
                        stack: s.drop_last(),
                        output: m.output + decimal(s[n - 1] as nat),
                        ..m
                    },
                )
            } else {
                Err(RuntimeError::StackUnderflow(t))
            },
            Token::PrintChar => if n >= 1 {
                Ok(
                    Machine {
                        pc: pc1,
                        stack: s.drop_last(),
                        output: m.output.push(s[n - 1] as char),
                        ..m
                    },
                )
            } else {
                Err(RuntimeError::StackUnderflow(t))
            },
            Token::If => if n == 0 {
                Err(RuntimeError::StackUnderflow(t))
            } else if s[n - 1] > 0 {
                Ok(Machine { pc: pc1, ..m })
            } else {
                match skip_from(code, pc1 as nat, 1, true) {
                    Some(j) => Ok(Machine { pc: j as usize, ..m }),
                    None => Err(RuntimeError::UnclosedIfStatement(t)),
                }
            },
            Token::Else => match skip_from(code, pc1 as nat, 1, false) {
                Some(j) => Ok(Machine { pc: j as usize, ..m }),
                None => Err(RuntimeError::UnclosedIfStatement(t)),
            },
            Token::Then => Ok(Machine { pc: pc1, ..m }),
            Token::Call(l) => if labels.contains_key(l@) {
                Ok(Machine { pc: labels[l@], calls: m.calls.push(pc1), ..m })
            } else {
                Err(RuntimeError::InvalidLabel(t))
            },
            Token::Return => if m.calls.len() > 0 {
                Ok(Machine { pc: m.calls.last(), calls: m.calls.drop_last(), ..m })
            } else {
                Err(RuntimeError::CallStackUnderflow(t))
            },
            Token::Halt => Ok(Machine { halted: true, ..m }),
        }
    }
}

impl Program {
    /// The runtime state.
    pub open spec fn machine(&self) -> Machine {
        Machine {
            pc: self.pc,
            stack: self.stack@,
            calls: self.call_stack@,
            halted: self.halted,
            output: self.output@,
        }
    }

    /// What the next step does, over this program's instructions and labels.
    pub open spec fn next_state(&self) -> Result<Machine, RuntimeError> {
        next(self.tokens@, label_map(self.labels@), self.stack_size as nat, self.machine())
    }

    /// The parts that execution leaves as they are.
    pub open spec fn same_code(&self, other: &Program) -> bool {
        &&& self.lines == other.lines
        &&& self.tokens == other.tokens
        &&& self.labels == other.labels
        &&& self.stack_size == other.stack_size
    }

    /// A program over the lines of `text`, not yet parsed, with an empty stack.
    pub fn new(text: &str, stack_size: usize) -> (r: Program)
        ensures
            r.lines@.map_values(|l: String| l@) == lines_of(text@),
            r.tokens@.len() == 0,
            r.pc == 0,
            r.labels@.len() == 0,
            r.call_stack@.len() == 0,
            r.stack@.len() == 0,
            r.stack_size == stack_size,
            !r.halted,
            r.output@.len() == 0,
    {
        let chars = chars_of(text);
        let split = split_lines(&chars);
        let mut lines: Vec<String> = Vec::new();
        let mut i: usize = 0;
        while i < split.len()
            invariant
                i <= split@.len(),
                lines@.len() == i,
                forall|j: int| 0 <= j < i ==> #[trigger] lines@[j]@ == split@[j]@,
            decreases split@.len() - i,
        {
            let line = string_of(&split[i]);
            lines.push(line);
            i = i + 1;
        }
        assert(lines@.map_values(|l: String| l@) =~= views_of(split@));
        Program {
            lines,
            tokens: Vec::new(),
            pc: 0,
            labels: Vec::new(),
            call_stack: Vec::new(),
            stack: Vec::new(),
            stack_size,
            halted: false,
            output: String::new(),
        }
    }

    /// Scans forward from `start` for the end of the block that the instruction
    /// before `start` opened.
    fn skip_block(&self, start: usize, stop_at_else: bool) -> (r: Option<usize>)
        requires
            1 <= start <= self.tokens@.len(),
        ensures
            r matches Some(j) ==> skip_from(self.tokens@, start as nat, 1, stop_at_else) == Some(
                j as nat,
            ),
            r is None ==> skip_from(self.tokens@, start as nat, 1, stop_at_else) is None,
    {
        let mut i: usize = start;
        let mut depth: usize = 1;
        while i < self.tokens.len()
            invariant
                start <= i <= self.tokens@.len(),
                1 <= start,
                1 <= depth <= i - start + 1,
                skip_from(self.tokens@, i as nat, depth as nat, stop_at_else) == skip_from(
                    self.tokens@,
                    start as nat,
                    1,
                    stop_at_else,
                ),
            decreases self.tokens@.len() - i,
        {
            match self.tokens[i].token {
                Token::If => {
                    depth = depth + 1;
                },
                Token::Else => {
                    if stop_at_else && depth == 1 {
                        return Some(i + 1);
                    }
                },
                Token::Then => {
                    if depth == 1 {
                        return Some(i + 1);
                    }
                    depth = depth - 1;
                },
                _ => {},
            }
            i = i + 1;
        }
        None
    }

    /// Runs the instruction at `pc`. Does nothing once halted or past the last
    /// instruction; on an error the program is left as it was.
    #[verifier::rlimit(60)]
    #[verifier::spinoff_prover]
    pub fn step(&mut self) -> (r: Result<(), RuntimeError>)
        ensures
            final(self).same_code(old(self)),
            match old(self).next_state() {
                Ok(m) => r is Ok && final(self).machine() == m,
                Err(e) => r == Err::<(), RuntimeError>(e) && *final(self) == *old(self),
            },
    {
        if self.pc >= self.tokens.len() || self.halted {
            return Ok(());
        }
        let pc = self.pc;
        let n = self.stack.len();
        let ghost s = self.stack@;
        let token = self.tokens[pc].token.copied();
        match token {
            Token::Push(v) => {
                if n < self.stack_size {
                    self.stack.push(v);
                } else {
                    return Err(RuntimeError::StackOverflow(self.tokens[pc].copied()));
                }
                self.pc = pc + 1;
            },
            Token::Pop => {
                if n < 1 {
                    return Err(RuntimeError::StackUnderflow(self.tokens[pc].copied()));
                }
                self.stack.pop();
                self.pc = pc + 1;
            },
            Token::Dup => {
                if n < 1 {
                    return Err(RuntimeError::StackUnderflow(self.tokens[pc].copied()));
                }
                let top = self.stack[n - 1];
                self.stack.push(top);
                self.pc = pc + 1;
            },
            Token::Swap => {
                if n < 2 {
                    return Err(RuntimeError::StackUnderflow(self.tokens[pc].copied()));
                }
                let top = self.stack.pop().unwrap();
                let below = self.stack.pop().unwrap();
                self.stack.push(top);
                self.stack.push(below);
                assert(self.stack@ =~= s.subrange(0, n - 2).push(s[n - 1]).push(s[n - 2]));
                self.pc = pc + 1;
            },
            Token::Over => {
                if n < 2 {
                    return Err(RuntimeError::StackUnderflow(self.tokens[pc].copied()));
                }
                let second = self.stack[n - 2];
                self.stack.push(second);
                self.pc = pc + 1;
            },
            Token::Rotate => {
                if n < 3 {
                    return Err(RuntimeError::StackUnderflow(self.tokens[pc].copied()));
                }
                let top = self.stack.pop().unwrap();
                let middle = self.stack.pop().unwrap();
                let bottom = self.stack.pop().unwrap();
                self.stack.push(middle);
                self.stack.push(top);
                self.stack.push(bottom);
                assert(self.stack@ =~= s.subrange(0, n - 3).push(s[n - 2]).push(s[n - 1]).push(
                    s[n - 3],
                ));
                self.pc = pc + 1;
            },
            Token::Pick(k) => {
                if k >= n {
                    return Err(RuntimeError::StackUnderflow(self.tokens[pc].copied()));
                }
                let value = self.stack[n - 1 - k];
                self.stack.push(value);
                self.pc = pc + 1;
            },
            Token::BinOp(op) => {
                if n < 2 {
                    return Err(RuntimeError::StackUnderflow(self.tokens[pc].copied()));
                }
                let top = self.stack.pop().unwrap();
                let bottom = self.stack.pop().unwrap();
                let result: u8 = match op {
                    BinOp::Add => ((top as u16 + bottom as u16) % 256) as u8,
                    BinOp::Sub => ((bottom as u16 + 256 - top as u16) % 256) as u8,
                };
                self.stack.push(result);
                assert(self.stack@ =~= s.subrange(0, n - 2).push(result));
                self.pc = pc + 1;
            },
            Token::PrintByte => {
                if n < 1 {
                    return Err(RuntimeError::StackUnderflow(self.tokens[pc].copied()));
                }
                let top = self.stack.pop().unwrap();
                let mut digits: Vec<char> = Vec::new();
                push_decimal(&mut digits, top as usize);
                let text = string_of(&digits);
                self.output.append(text.as_str());
                assert(digits@ =~= decimal(top as nat));
                self.pc = pc + 1;
            },
            Token::PrintChar => {
                if n < 1 {
                    return Err(RuntimeError::StackUnderflow(self.tokens[pc].copied()));
                }
                let top = self.stack.pop().unwrap();
                let c = top as char;
                let mut one: Vec<char> = Vec::new();
                one.push(c);
                let text = string_of(&one);
                self.output.append(text.as_str());
                assert(self.output@ =~= old(self).output@.push(top as char));
                self.pc = pc + 1;
            },
            Token::If => {
                if n < 1 {
                    return Err(RuntimeError::StackUnderflow(self.tokens[pc].copied()));
                }
                if self.stack[n - 1] > 0 {
                    self.pc = pc + 1;
                } else {
                    match self.skip_block(pc + 1, true) {
                        Some(j) => {
                            self.pc = j;
                        },
                        None => {
                            return Err(RuntimeError::UnclosedIfStatement(self.tokens[pc].copied()));
                        },
                    }
                }
            },
            Token::Else => {
                match self.skip_block(pc + 1, false) {
                    Some(j) => {
                        self.pc = j;
                    },
                    None => {
                        return Err(RuntimeError::UnclosedIfStatement(self.tokens[pc].copied()));
                    },
                }
            },
            Token::Then => {
                self.pc = pc + 1;
            },
            Token::Call(label) => {
                match find_label(&self.labels, &label) {
                    Some(target) => {
                        self.call_stack.push(pc + 1);
                        self.pc = target;
                    },
                    None => {
                        return Err(RuntimeError::InvalidLabel(self.tokens[pc].copied()));
                    },
                }
            },
            Token::Return => {
                if self.call_stack.len() == 0 {
                    return Err(RuntimeError::CallStackUnderflow(self.tokens[pc].copied()));
                }
                let target = self.call_stack.pop().unwrap();
                self.pc = target;
            },
            Token::Halt => {
                self.halted = true;
            },
        }
        Ok(())
    }

    /// The operand stack, bottom first.
    pub fn _stack(&self) -> (r: &[u8])
        ensures
            r@ == self.stack@,
    {
        self.stack.as_slice()
    }

    /// The source lines as a debug listing.
    pub fn _lines_as_string(&self) -> (r: String)
        ensures
            r@ == debug_lines(self.lines@.map_values(|l: String| l@)),
    {
        format_lines(&self.lines)
    }

    /// The instructions as a debug listing.
    pub fn _tokens_as_string(&self) -> (r: String)
        ensures
            r@ == debug_tokens(self.tokens@.map_values(|t: AnnotatedToken| t@)),
    {
        format_tokens(&self.tokens)
    }

    /// The operand stack as a bracketed list of decimal numbers, bottom first.
    pub fn _stack_as_string(&self) -> (r: String)
        ensures
            r@ == seq!['['] + list_text(self.stack@) + seq![']'],
    {
        let mut out: Vec<char> = Vec::new();
        out.push('[');
        let mut i: usize = 0;
        while i < self.stack.len()
            invariant
                i <= self.stack@.len(),
                out@ == seq!['['] + list_text(self.stack@.subrange(0, i as int)),
            decreases self.stack@.len() - i,
        {
            if i > 0 {
                out.push(',');
                out.push(' ');
            }
            push_decimal(&mut out, self.stack[i] as usize);
            let ghost p = self.stack@.subrange(0, i + 1);
            assert(p.drop_last() =~= self.stack@.subrange(0, i as int));
            assert(out@ =~= seq!['['] + list_text(p));
            i = i + 1;
        }
        assert(self.stack@.subrange(0, i as int) =~= self.stack@);
        out.push(']');
        assert(out@ =~= seq!['['] + list_text(self.stack@) + seq![']']);
        string_of(&out)
    }
}

} // verus!
