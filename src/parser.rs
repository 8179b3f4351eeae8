//! Turning source lines into instructions and a label table, and the static
//! checks on conditionals and calls.
use vstd::prelude::*;
use crate::program::{find_label, label_map, Program};
use crate::text::{chars_of, number_of, parse_number, split_words, string_of, upper_of, uppercase, views_of, words_of};
use crate::token::{AnnotatedToken, BinOp, Instr, Op, ParseError, ParseFault, Token};

verus! {

/// What parsing has built so far.
pub struct Parsed {
    pub ops: Seq<Instr>,
    pub labels: Map<Seq<char>, usize>,
}

/// The views of a list of annotated instructions.
pub open spec fn instrs(v: Seq<AnnotatedToken>) -> Seq<Instr> {
    v.map_values(|t: AnnotatedToken| t@)
}

/// The characters of each source line.
pub open spec fn line_views(v: Seq<String>) -> Seq<Seq<char>> {
    v.map_values(|l: String| l@)
}

/// The instruction that the words of a line (at least one) stand for. A first
/// word that is no mnemonic is a call to the label it names.
pub open spec fn decode(w: Seq<Seq<char>>, ln: usize) -> Result<Op, ParseFault> {
    let u = upper_of(w[0]);
    if u == "PUSH"@ {
        if w.len() < 2 {
            Err(ParseFault::MissingArgument(w[0], ln))
        } else {
            match number_of(w[1], 255) {
                Some(v) => Ok(Op::Push(v as u8)),
                None => Err(ParseFault::InvalidArgument(w[1], ln)),
            }
        }
    } else if u == "POP"@ {
        Ok(Op::Pop)
    } else if u == "DUP"@ {
        Ok(Op::Dup)
    } else if u == "SWAP"@ {
        Ok(Op::Swap)
    } else if u == "OVER"@ {
        Ok(Op::Over)
    } else if u == "ROTATE"@ {
        Ok(Op::Rotate)
    } else if u == "PICK"@ {
        if w.len() < 2 {
            Err(ParseFault::MissingArgument(w[0], ln))
        } else {
            match number_of(w[1], usize::MAX as nat) {
                Some(v) => Ok(Op::Pick(v as usize)),
                None => Err(ParseFault::InvalidArgument(w[1], ln)),
            }
        }
    } else if u == "ADD"@ {
        Ok(Op::BinOp(BinOp::Add))
    } else if u == "SUB"@ {
        Ok(Op::BinOp(BinOp::Sub))
    } else if u == "PRINT_BYTE"@ {
        Ok(Op::PrintByte)
    } else if u == "PRINT_CHAR"@ {
        Ok(Op::PrintChar)
    } else if u == "IF"@ {
        Ok(Op::If)
    } else if u == "ELSE"@ {
        Ok(Op::Else)
    } else if u == "THEN"@ {
        Ok(Op::Then)
    } else if u == "RETURN"@ {
        Ok(Op::Return)
    } else if u == "HALT"@ {
        Ok(Op::Halt)
    } else {
        Ok(Op::Call(u))
    }
}

/// What one source line, numbered `ln`, does to what parsing has built: a blank
/// or comment line nothing, a label declaration adds a label, any other line
/// adds an instruction.
pub open spec fn line_step(st: Parsed, line: Seq<char>, ln: usize) -> Result<Parsed, ParseFault> {
    let w = words_of(line);
    if w.len() == 0 || w[0][0] == '#' {
        Ok(st)
    } else if w[0].last() == ':' {
        let k = upper_of(w[0].drop_last());
        if st.labels.contains_key(k) {
            Err(ParseFault::DuplicateLabel(w[0], ln))
        } else {
            Ok(Parsed { ops: st.ops, labels: st.labels.insert(k, st.ops.len() as usize) })
        }
    } else {
        match decode(w, ln) {
            Ok(op) => Ok(Parsed { ops: st.ops.push(Instr { op, line_number: ln }), labels: st.labels }),
            Err(e) => Err(e),
        }
    }
}

/// The first `n` lines, processed in order; the first error stops it.
pub open spec fn scan(lines: Seq<Seq<char>>, n: nat) -> Result<Parsed, ParseFault>
    decreases n,
{
    if n == 0 {
        Ok(Parsed { ops: seq![], labels: Map::empty() })
    } else {
        match scan(lines, (n - 1) as nat) {
            Ok(st) => line_step(st, lines[n - 1], n as usize),
            Err(e) => Err(e),
        }
    }
}

/// The nesting of conditionals over the first `n` instructions: for each open
/// `If`, how many `Else` it has had so far; or the first misplaced marker.
pub open spec fn nesting(ops: Seq<Instr>, n: nat) -> Result<Seq<u32>, ParseFault>
    decreases n,
{
    if n == 0 {
        Ok(seq![])
    } else {
        match nesting(ops, (n - 1) as nat) {
            Ok(open) => {
                let t = ops[n - 1];
                match t.op {
                    Op::If => Ok(open.push(0)),
                    Op::Else => if open.len() == 0 {
                        Err(ParseFault::ElseWithoutIfStatement(t))
                    } else if open.last() > 0 {
                        Err(ParseFault::TooManyElseStatements(t))
                    } else {
                        Ok(open.drop_last().push(1))
                    },
                    Op::Then => if open.len() == 0 {
                        Err(ParseFault::ThenWithoutIfStatement(t))
                    } else {
                        Ok(open.drop_last())
                    },
                    _ => Ok(open),
                }
            },
            Err(e) => Err(e),
        }
    }
}

/// The first call among the first `n` instructions whose label is not declared.
pub open spec fn first_bad_call(ops: Seq<Instr>, labels: Map<Seq<char>, usize>, n: nat) -> Option<
    ParseFault,
>
    decreases n,
{
    if n == 0 {
        None
    } else {
        match first_bad_call(ops, labels, (n - 1) as nat) {
            Some(e) => Some(e),
            None => match ops[n - 1].op {
                Op::Call(l) => if labels.contains_key(l) {
                    None
                } else {
                    Some(ParseFault::InvalidCall(l, ops[n - 1].line_number))
                },
                _ => None,
            },
        }
    }
}

/// The outcome of parsing the given lines: every line, then the check on
/// conditionals, then the check on calls.
pub open spec fn parse_lines(lines: Seq<Seq<char>>) -> Result<Parsed, ParseFault> {
    match scan(lines, lines.len()) {
        Ok(st) => match nesting(st.ops, st.ops.len()) {
            Ok(_) => match first_bad_call(st.ops, st.labels, st.ops.len()) {
                Some(e) => Err(e),
                None => Ok(st),
            },
            Err(e) => Err(e),
        },
        Err(e) => Err(e),
    }
}

/// Once scanning fails, more lines do not change the error.
pub proof fn lemma_scan_error_stays(lines: Seq<Seq<char>>, i: nat, n: nat)
    requires
        i <= n,
        scan(lines, i) is Err,
    ensures
        scan(lines, n) == scan(lines, i),
    decreases n,
{
    if n > i {
        lemma_scan_error_stays(lines, i, (n - 1) as nat);
    }
}

proof fn lemma_nesting_error_stays(ops: Seq<Instr>, i: nat, n: nat)
    requires
        i <= n,
        nesting(ops, i) is Err,
    ensures
        nesting(ops, n) == nesting(ops, i),
    decreases n,
{
    if n > i {
        lemma_nesting_error_stays(ops, i, (n - 1) as nat);
    }
}

proof fn lemma_bad_call_stays(ops: Seq<Instr>, labels: Map<Seq<char>, usize>, i: nat, n: nat)
    requires
        i <= n,
        first_bad_call(ops, labels, i) is Some,
    ensures
        first_bad_call(ops, labels, n) == first_bad_call(ops, labels, i),
    decreases n,
{
    if n > i {
        lemma_bad_call_stays(ops, labels, i, (n - 1) as nat);
    }
}

/// Whether the characters are exactly those of `w`.
fn is_word(u: &Vec<char>, w: &str) -> (r: bool)
    ensures
        r == (u@ == w@),
{
    let n = w.unicode_len();
    if u.len() != n {
        return false;
    }
    let mut i: usize = 0;
    while i < n
        invariant
            n == w@.len(),
            u@.len() == n,
            i <= n,
            forall|j: int| 0 <= j < i ==> u@[j] == w@[j],
        decreases n - i,
    {
        if u[i] != w.get_char(i) {
            return false;
        }
        i = i + 1;
    }
    assert(u@ =~= w@);
    true
}

/// Decodes the words of an instruction line.
fn decode_words(w: &Vec<Vec<char>>, ln: usize) -> (r: Result<Token, ParseError>)
    requires
        w@.len() >= 1,
    ensures
        match decode(views_of(w@), ln) {
            Ok(op) => r matches Ok(t) && t@ == op,
            Err(e) => r matches Err(x) && x@ == e,
        },
{
    let ghost ws = views_of(w@);
    let first = &w[0];
    let u = uppercase(first);
    if is_word(&u, "PUSH") {
        if w.len() < 2 {
            return Err(ParseError::MissingArgument(string_of(first), ln));
        }
        match parse_number(&w[1], 255) {
            Some(v) => Ok(Token::Push(v as u8)),
            None => Err(ParseError::InvalidArgument(string_of(&w[1]), ln)),
        }
    } else if is_word(&u, "POP") {
        Ok(Token::Pop)
    } else if is_word(&u, "DUP") {
        Ok(Token::Dup)
    } else if is_word(&u, "SWAP") {
        Ok(Token::Swap)
    } else if is_word(&u, "OVER") {
        Ok(Token::Over)
    } else if is_word(&u, "ROTATE") {
        Ok(Token::Rotate)
    } else if is_word(&u, "PICK") {
        if w.len() < 2 {
            return Err(ParseError::MissingArgument(string_of(first), ln));
        }
        match parse_number(&w[1], usize::MAX as u64) {
            Some(v) => Ok(Token::Pick(v as usize)),
            None => Err(ParseError::InvalidArgument(string_of(&w[1]), ln)),
        }
    } else if is_word(&u, "ADD") {
        Ok(Token::BinOp(BinOp::Add))
    } else if is_word(&u, "SUB") {
        Ok(Token::BinOp(BinOp::Sub))
    } else if is_word(&u, "PRINT_BYTE") {
        Ok(Token::PrintByte)
    } else if is_word(&u, "PRINT_CHAR") {
        Ok(Token::PrintChar)
    } else if is_word(&u, "IF") {
        Ok(Token::If)
    } else if is_word(&u, "ELSE") {
        Ok(Token::Else)
    } else if is_word(&u, "THEN") {
        Ok(Token::Then)
    } else if is_word(&u, "RETURN") {
        Ok(Token::Return)
    } else if is_word(&u, "HALT") {
        Ok(Token::Halt)
    } else {
        Ok(Token::Call(string_of(&u)))
    }
}

impl Program {
    /// What parsing has built so far.
    pub open spec fn parsed(&self) -> Parsed {
        Parsed { ops: instrs(self.tokens@), labels: label_map(self.labels@) }
    }

    /// Processes one source line, numbered `ln`.
    fn parse_line(&mut self, line: &Vec<char>, ln: usize) -> (r: Result<(), ParseError>)
        ensures
            final(self).lines == old(self).lines,
            final(self).machine() == old(self).machine(),
            final(self).stack_size == old(self).stack_size,
            match line_step(old(self).parsed(), line@, ln) {
                Ok(st) => r is Ok && final(self).parsed() == st,
                Err(e) => r matches Err(x) && x@ == e,
            },
    {
        let w = split_words(line);
        if w.len() == 0 {
            return Ok(());
        }
        assert(views_of(w@)[0] == w@[0]@);
        let first = &w[0];
        if first[0] == '#' {
            return Ok(());
        }
        if first[first.len() - 1] == ':' {
            let mut name = first.clone();
            name.pop();
            assert(name@ =~= first@.drop_last());
            let key = string_of(&uppercase(&name));
            match find_label(&self.labels, &key) {
                Some(_) => {
                    return Err(ParseError::DuplicateLabel(string_of(first), ln));
                },
                None => {
                    let ghost before = self.labels@;
                    let entry = (key, self.tokens.len());
                    self.labels.push(entry);
                    assert(self.labels@.drop_last() =~= before);
                    assert(instrs(self.tokens@).len() == self.tokens@.len());
                    return Ok(());
                },
            }
        }
        match decode_words(&w, ln) {
            Ok(token) => {
                let ghost before = self.tokens@;
                self.tokens.push(AnnotatedToken { token, line_number: ln });
                assert(instrs(self.tokens@) =~= instrs(before).push(self.tokens@.last()@));
                Ok(())
            },
            Err(e) => Err(e),
        }
    }

    /// Checks that `If`, `Else` and `Then` nest: every `Else` and `Then` closes an
    /// open `If`, and no `If` has two `Else`.
    fn check_if_statements(&self) -> (r: Result<(), ParseError>)
        ensures
            match nesting(instrs(self.tokens@), self.tokens@.len() as nat) {
                Ok(_) => r is Ok,
                Err(e) => r matches Err(x) && x@ == e,
            },
    {
        let ghost ops = instrs(self.tokens@);
        let mut else_statements: Vec<u32> = Vec::new();
        let mut i: usize = 0;
        while i < self.tokens.len()
            invariant
                i <= self.tokens@.len(),
                ops == instrs(self.tokens@),
                nesting(ops, i as nat) == Ok::<Seq<u32>, ParseFault>(else_statements@),
            decreases self.tokens@.len() - i,
        {
            let annotated = &self.tokens[i];
            assert(ops[i as int] == annotated@);
            match annotated.token {
                Token::If => {
                    else_statements.push(0);
                },
                Token::Else => {
                    if else_statements.len() == 0 {
                        proof {
                            lemma_nesting_error_stays(ops, (i + 1) as nat, ops.len());
                        }
                        return Err(ParseError::ElseWithoutIfStatement(annotated.copied()));
                    }
                    let count = else_statements.pop().unwrap();
                    if count > 0 {
                        proof {
                            lemma_nesting_error_stays(ops, (i + 1) as nat, ops.len());
                        }
                        return Err(ParseError::TooManyElseStatements(annotated.copied()));
                    }
                    else_statements.push(count + 1);
                },
                Token::Then => {
                    if else_statements.len() == 0 {
                        proof {
                            lemma_nesting_error_stays(ops, (i + 1) as nat, ops.len());
                        }
                        return Err(ParseError::ThenWithoutIfStatement(annotated.copied()));
                    }
                    else_statements.pop();
                },
                _ => {},
            }
            i = i + 1;
        }
        Ok(())
    }

    /// Checks that every call names a declared label.
    fn check_calls(&self) -> (r: Result<(), ParseError>)
        ensures
            match first_bad_call(instrs(self.tokens@), label_map(self.labels@), self.tokens@.len() as nat) {
                None => r is Ok,
                Some(e) => r matches Err(x) && x@ == e,
            },
    {
        let ghost ops = instrs(self.tokens@);
        let mut i: usize = 0;
        while i < self.tokens.len()
            invariant
                i <= self.tokens@.len(),
                ops == instrs(self.tokens@),
                first_bad_call(ops, label_map(self.labels@), i as nat) is None,
            decreases self.tokens@.len() - i,
        {
            let annotated = &self.tokens[i];
            assert(ops[i as int] == annotated@);
            if let Token::Call(label) = &annotated.token {
                if find_label(&self.labels, label).is_none() {
                    proof {
                        lemma_bad_call_stays(ops, label_map(self.labels@), (i + 1) as nat, ops.len());
                    }
                    return Err(ParseError::InvalidCall(label.clone(), annotated.line_number));
                }
            }
            i = i + 1;
        }
        Ok(())
    }

    /// Reads every source line into instructions and labels, then checks the
    /// nesting of conditionals and the targets of calls. The first error found
    /// is returned.
    pub fn parse(&mut self) -> (r: Result<(), ParseError>)
        requires
            old(self).tokens@.len() == 0,
            old(self).labels@.len() == 0,
        ensures
            final(self).lines == old(self).lines,
            final(self).machine() == old(self).machine(),
            final(self).stack_size == old(self).stack_size,
            match parse_lines(line_views(old(self).lines@)) {
                Ok(st) => r is Ok && final(self).parsed() == st,
                Err(e) => r matches Err(x) && x@ == e,
            },
    {
        let ghost lines = line_views(self.lines@);
        assert(self.parsed().ops =~= seq![]);
        assert(self.parsed().labels =~= Map::empty());
        let mut i: usize = 0;
        while i < self.lines.len()
            invariant
                i <= self.lines@.len(),
                lines == line_views(self.lines@),
                self.lines == old(self).lines,
                self.machine() == old(self).machine(),
                self.stack_size == old(self).stack_size,
                scan(lines, i as nat) == Ok::<Parsed, ParseFault>(self.parsed()),
            decreases self.lines@.len() - i,
        {
            let line = chars_of(self.lines[i].as_str());
            assert(lines[i as int] == line@);
            let step = self.parse_line(&line, i + 1);
            if step.is_err() {
                proof {
                    lemma_scan_error_stays(lines, (i + 1) as nat, lines.len());
                }
                return step;
            }
            i = i + 1;
        }
        assert(self.parsed().ops.len() == self.tokens@.len());
        let nested = self.check_if_statements();
        if nested.is_err() {
            return nested;
        }
        self.check_calls()
    }
}

} // verus!
