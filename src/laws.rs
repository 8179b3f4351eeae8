//! Properties of the parser and the interpreter, stated over their
//! specifications and proved.
use vstd::prelude::*;
use crate::parser::{first_bad_call, lemma_scan_error_stays, parse_lines, scan, Parsed};
use crate::program::{label_map, next, skip_from, Machine, Program};
use crate::text::{upper_of, words_of};
use crate::token::{AnnotatedToken, BinOp, Instr, Op, ParseFault, RuntimeError, Token};

verus! {

/// `k` steps from `m`, stopping at the first error.
pub open spec fn run(
    code: Seq<AnnotatedToken>,
    labels: Map<Seq<char>, usize>,
    cap: nat,
    m: Machine,
    k: nat,
) -> Result<Machine, RuntimeError>
    decreases k,
{
    if k == 0 {
        Ok(m)
    } else {
        match next(code, labels, cap, m) {
            Ok(m2) => run(code, labels, cap, m2, (k - 1) as nat),
            Err(e) => Err(e),
        }
    }
}

/// How many operands an instruction needs on the stack.
pub open spec fn needed(t: Token) -> nat {
    match t {
        Token::Pop | Token::Dup | Token::PrintByte | Token::PrintChar | Token::If => 1,
        Token::Swap | Token::Over | Token::BinOp(_) => 2,
        Token::Rotate => 3,
        Token::Pick(k) => k as nat + 1,
        _ => 0,
    }
}

proof fn lemma_pushes_grow(
    code: Seq<AnnotatedToken>,
    labels: Map<Seq<char>, usize>,
    cap: nat,
    m: Machine,
    k: nat,
)
    requires
        !m.halted,
        m.pc + k <= code.len() <= usize::MAX,
        m.stack.len() + k <= cap,
        forall|j: int| m.pc <= j < m.pc + k ==> #[trigger] code[j].token is Push,
    ensures
        run(code, labels, cap, m, k) matches Ok(r) && r.stack.len() == m.stack.len() + k && r.pc
            == m.pc + k && !r.halted,
    decreases k,
{
    if k > 0 {
        assert(code[m.pc as int].token is Push);
        let t = code[m.pc as int];
        let v = t.token->Push_0;
        let m2 = Machine { pc: (m.pc + 1) as usize, stack: m.stack.push(v), ..m };
        assert(next(code, labels, cap, m) == Ok::<Machine, RuntimeError>(m2));
        assert forall|j: int| m2.pc <= j < m2.pc + (k - 1) implies #[trigger] code[j].token is Push by {
            assert(m.pc <= j < m.pc + k);
        }
        lemma_pushes_grow(code, labels, cap, m2, (k - 1) as nat);
    }
}

/// Starting from an empty stack, a run of `k` pushes with `k` at most the
/// capacity succeeds and leaves exactly `k` elements on the stack.
pub proof fn lemma_push_count(
    code: Seq<AnnotatedToken>,
    labels: Map<Seq<char>, usize>,
    cap: nat,
    m: Machine,
    k: nat,
)
    requires
        !m.halted,
        m.stack.len() == 0,
        k <= cap,
        m.pc + k <= code.len() <= usize::MAX,
        forall|j: int| m.pc <= j < m.pc + k ==> #[trigger] code[j].token is Push,
    ensures
        run(code, labels, cap, m, k) matches Ok(r) && r.stack.len() == k,
{
    lemma_pushes_grow(code, labels, cap, m, k);
}

/// A `Push` on a full stack fails with `StackOverflow`; `Program::step` then
/// leaves the program unchanged.
pub proof fn lemma_push_at_capacity(
    code: Seq<AnnotatedToken>,
    labels: Map<Seq<char>, usize>,
    cap: nat,
    m: Machine,
)
    requires
        !m.halted,
        m.pc < code.len(),
        code[m.pc as int].token is Push,
        m.stack.len() == cap,
    ensures
        next(code, labels, cap, m) == Err::<Machine, RuntimeError>(
            RuntimeError::StackOverflow(code[m.pc as int]),
        ),
{
}

/// An instruction that finds fewer operands than it needs fails with
/// `StackUnderflow`; `Program::step` then leaves the program unchanged.
pub proof fn lemma_underflow(
    code: Seq<AnnotatedToken>,
    labels: Map<Seq<char>, usize>,
    cap: nat,
    m: Machine,
)
    requires
        !m.halted,
        m.pc < code.len(),
        m.stack.len() < needed(code[m.pc as int].token),
    ensures
        next(code, labels, cap, m) == Err::<Machine, RuntimeError>(
            RuntimeError::StackUnderflow(code[m.pc as int]),
        ),
{
}

/// `Add` gives the same result whichever order its operands were pushed in:
/// their sum modulo 256.
pub proof fn lemma_add_commutes(
    code: Seq<AnnotatedToken>,
    labels: Map<Seq<char>, usize>,
    cap: nat,
    m: Machine,
    rest: Seq<u8>,
    a: u8,
    b: u8,
)
    requires
        !m.halted,
        m.pc < code.len(),
        code[m.pc as int].token == Token::BinOp(BinOp::Add),
    ensures
        next(code, labels, cap, Machine { stack: rest.push(a).push(b), ..m }) == next(
            code,
            labels,
            cap,
            Machine { stack: rest.push(b).push(a), ..m },
        ),
        next(code, labels, cap, Machine { stack: rest.push(a).push(b), ..m }) == Ok::<
            Machine,
            RuntimeError,
        >(Machine { pc: (m.pc + 1) as usize, stack: rest.push(((a + b) % 256) as u8), ..m }),
{
    let s1 = rest.push(a).push(b);
    let s2 = rest.push(b).push(a);
    assert(s1.subrange(0, s1.len() - 2) =~= rest);
    assert(s2.subrange(0, s2.len() - 2) =~= rest);
}

/// `Pick(0)` does what `Dup` does on any stack with at least one element.
pub proof fn lemma_pick_zero_is_dup(
    code: Seq<AnnotatedToken>,
    labels: Map<Seq<char>, usize>,
    cap: nat,
    m: Machine,
)
    requires
        !m.halted,
        m.pc < code.len(),
        code[m.pc as int].token == Token::Pick(0),
        m.stack.len() >= 1,
    ensures
        next(code, labels, cap, m) == next(
            code.update(
                m.pc as int,
                AnnotatedToken { token: Token::Dup, line_number: code[m.pc as int].line_number },
            ),
            labels,
            cap,
            m,
        ),
{
}

/// Whether line `i` declares a label, and which name it declares, case folded.
pub open spec fn declares(lines: Seq<Seq<char>>, i: int, name: Seq<char>) -> bool {
    let w = words_of(lines[i]);
    &&& w.len() > 0
    &&& w[0][0] != '#'
    &&& w[0].last() == ':'
    &&& upper_of(w[0].drop_last()) == name
}

proof fn lemma_label_stays(lines: Seq<Seq<char>>, i: nat, n: nat, name: Seq<char>)
    requires
        i <= n <= lines.len(),
        scan(lines, i) matches Ok(st) && st.labels.contains_key(name),
        scan(lines, n) is Ok,
    ensures
        scan(lines, n)->Ok_0.labels.contains_key(name),
    decreases n,
{
    if n > i {
        if scan(lines, (n - 1) as nat) is Err {
            lemma_scan_error_stays(lines, (n - 1) as nat, n);
        } else {
            lemma_label_stays(lines, i, (n - 1) as nat, name);
        }
    }
}

/// Label names are compared case folded and may be declared once: a program
/// that declares the same name on two lines does not parse, and when nothing
/// before the second declaration fails, the error is `DuplicateLabel` at it.
pub proof fn lemma_duplicate_label(lines: Seq<Seq<char>>, i: int, j: int, name: Seq<char>)
    requires
        0 <= i < j < lines.len(),
        declares(lines, i, name),
        declares(lines, j, name),
    ensures
        parse_lines(lines) is Err,
        scan(lines, j as nat) is Ok ==> parse_lines(lines) == Err::<Parsed, ParseFault>(
            ParseFault::DuplicateLabel(words_of(lines[j])[0], (j + 1) as usize),
        ),
{
    let n = lines.len();
    if scan(lines, (i + 1) as nat) is Err {
        lemma_scan_error_stays(lines, (i + 1) as nat, n);
        lemma_scan_error_stays(lines, (i + 1) as nat, j as nat);
    } else {
        assert(scan(lines, (i + 1) as nat)->Ok_0.labels.contains_key(name));
        if scan(lines, j as nat) is Err {
            lemma_scan_error_stays(lines, j as nat, n);
        } else {
            lemma_label_stays(lines, (i + 1) as nat, j as nat, name);
            assert(scan(lines, (j + 1) as nat) is Err);
            lemma_scan_error_stays(lines, (j + 1) as nat, n);
        }
    }
}

proof fn lemma_no_bad_call(ops: Seq<Instr>, labels: Map<Seq<char>, usize>, n: nat, i: int)
    requires
        0 <= i < n <= ops.len(),
        first_bad_call(ops, labels, n) is None,
    ensures
        ops[i].op matches Op::Call(l) ==> labels.contains_key(l),
    decreases n,
{
    if i < n - 1 {
        lemma_no_bad_call(ops, labels, (n - 1) as nat, i);
    }
}

/// Every call in a program that parsed names a declared label.
pub proof fn lemma_calls_resolved(lines: Seq<Seq<char>>, i: int)
    requires
        parse_lines(lines) matches Ok(st) && 0 <= i < st.ops.len(),
    ensures
        parse_lines(lines)->Ok_0.ops[i].op matches Op::Call(l) ==> parse_lines(
            lines,
        )->Ok_0.labels.contains_key(l),
{
    let st = scan(lines, lines.len())->Ok_0;
    lemma_no_bad_call(st.ops, st.labels, st.ops.len(), i);
}

/// A program whose instructions and labels are those of a successful parse
/// never fails a step with `InvalidLabel`: an undeclared label is caught when
/// parsing.
pub proof fn lemma_no_invalid_label(lines: Seq<Seq<char>>, p: Program)
    requires
        parse_lines(lines) == Ok::<Parsed, ParseFault>(p.parsed()),
    ensures
        !(p.next_state() matches Err(RuntimeError::InvalidLabel(_))),
{
    let m = p.machine();
    if m.pc < p.tokens@.len() && !m.halted {
        lemma_calls_resolved(lines, m.pc as int);
        assert(p.parsed().ops[m.pc as int] == p.tokens@[m.pc as int]@);
    }
}

/// The program counter, every return address and every label target lie
/// within the instructions or just past the last one.
pub open spec fn in_range(code_len: nat, labels: Map<Seq<char>, usize>, m: Machine) -> bool {
    &&& m.pc <= code_len
    &&& forall|i: int| 0 <= i < m.calls.len() ==> #[trigger] m.calls[i] <= code_len
    &&& forall|k: Seq<char>| #[trigger] labels.contains_key(k) ==> labels[k] <= code_len
}

proof fn lemma_skip_in_range(code: Seq<AnnotatedToken>, i: nat, depth: nat, stop_at_else: bool)
    ensures
        skip_from(code, i, depth, stop_at_else) matches Some(j) ==> j <= code.len(),
    decreases code.len() - i,
{
    if i < code.len() {
        match code[i as int].token {
            Token::If => lemma_skip_in_range(code, i + 1, depth + 1, stop_at_else),
            Token::Then => if depth > 1 {
                lemma_skip_in_range(code, i + 1, (depth - 1) as nat, stop_at_else);
            },
            _ => lemma_skip_in_range(code, i + 1, depth, stop_at_else),
        }
    }
}

/// A step keeps the program counter and the return addresses within the
/// instructions or just past the last one.
pub proof fn lemma_pc_stays_in_range(
    code: Seq<AnnotatedToken>,
    labels: Map<Seq<char>, usize>,
    cap: nat,
    m: Machine,
)
    requires
        code.len() <= usize::MAX,
        in_range(code.len(), labels, m),
    ensures
        next(code, labels, cap, m) matches Ok(m2) ==> in_range(code.len(), labels, m2),
{
    let pc1 = (m.pc + 1) as nat;
    lemma_skip_in_range(code, pc1, 1, true);
    lemma_skip_in_range(code, pc1, 1, false);
    if m.pc < code.len() && !m.halted {
        match code[m.pc as int].token {
            Token::Call(l) => if labels.contains_key(l@) {
                let calls = m.calls.push((m.pc + 1) as usize);
                assert forall|i: int| 0 <= i < calls.len() implies #[trigger] calls[i] <= code.len() by {
                    if i < m.calls.len() {
                        assert(calls[i] == m.calls[i]);
                    }
                }
            },
            Token::Return => if m.calls.len() > 0 {
                assert(m.calls[m.calls.len() - 1] <= code.len());
                let calls = m.calls.drop_last();
                assert forall|i: int| 0 <= i < calls.len() implies #[trigger] calls[i] <= code.len() by {
                    assert(calls[i] == m.calls[i]);
                }
            },
            _ => {},
        }
    }
}

proof fn lemma_scan_targets(lines: Seq<Seq<char>>, n: nat)
    requires
        n <= lines.len() <= usize::MAX,
    ensures
        scan(lines, n) matches Ok(st) ==> st.ops.len() <= n && forall|k: Seq<char>| #[trigger]
            st.labels.contains_key(k) ==> st.labels[k] <= st.ops.len(),
    decreases n,
{
    if n > 0 {
        lemma_scan_targets(lines, (n - 1) as nat);
    }
}

/// A program that parsed starts with its program counter, return addresses and
/// label targets in range.
pub proof fn lemma_parsed_in_range(lines: Seq<Seq<char>>, p: Program)
    requires
        lines.len() <= usize::MAX,
        parse_lines(lines) == Ok::<Parsed, ParseFault>(p.parsed()),
        p.pc == 0,
        p.call_stack@.len() == 0,
    ensures
        in_range(p.tokens@.len(), label_map(p.labels@), p.machine()),
{
    lemma_scan_targets(lines, lines.len());
    assert(p.parsed().ops.len() == p.tokens@.len());
}

} // verus!
