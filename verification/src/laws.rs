//! What holds of every machine and of every program text.

use crate::arith::{lemma_quotient_bound, quotient, wrap32};
use crate::fault::Fault;
use crate::instruction::{SpecInstruction, SpecOperand};
use crate::machine::{lemma_step_decreases, work, Machine, SpecAction, SpecEvent, MAX_DEPTH};
use crate::parser::{
    feed, line_instructions, loader_after, loader_start, program_of, starts_with_word, BlockMode,
    Loader,
};
use crate::text::{
    all_digits, decimal, decimal_nat, digit_char, digit_value, digits_value, is_digit, is_space,
    lemma_word_end, parse_i32, spans, spans_from, word_end,
};
use vstd::prelude::*;

verus! {

// ----------------------------------------------------------------------
// Arithmetic
// ----------------------------------------------------------------------

/// The machine that has run all of a program and is inside of no block
/// any more.
pub open spec fn halted(stack: Seq<i32>, vars: Map<Seq<char>, i32>) -> (
    Machine,
    Result<SpecAction, Fault>,
) {
    (Machine { stack: stack, vars: vars, frames: Seq::empty() }, Ok(SpecAction::Halt))
}

/// Two pushes and an instruction that puts `r` on the stack leave the two
/// numbers and `r` there, and the machine halts.
proof fn lemma_push_push_then(m: Machine, v1: i32, v2: i32, last: SpecInstruction, r: i32)
    requires
        m.frames.len() == 0,
        ({
            let at_last: Machine = Machine {
                stack: m.stack.push(v1).push(v2),
                vars: m.vars,
                frames: seq![seq![last]],
            };
            at_last.step() == at_last.yields(r)
        }),
    ensures
        m.run(seq![SpecInstruction::Push(v1), SpecInstruction::Push(v2), last]) == halted(
            m.stack + seq![v1, v2, r],
            m.vars,
        ),
{
    let program: Seq<SpecInstruction> = seq![
        SpecInstruction::Push(v1),
        SpecInstruction::Push(v2),
        last,
    ];
    let at_last: Machine = Machine {
        stack: m.stack.push(v1).push(v2),
        vars: m.vars,
        frames: seq![seq![last]],
    };
    reveal_with_fuel(Machine::settle, 6);
    let m0: Machine = m.entered(program);
    let m1: Machine = m0.step().0;
    assert(m1.frames =~~= seq![program.skip(1)]);
    let m2: Machine = m1.step().0;
    assert(m2.frames =~~= seq![seq![last]]);
    assert(m2 == at_last);
    let m3: Machine = m2.step().0;
    assert(m3.frames =~~= seq![Seq::<SpecInstruction>::empty()]);
    let m4: Machine = m3.step().0;
    assert(m4.frames =~~= Seq::<Seq<SpecInstruction>>::empty());
    assert(m4.stack =~= m.stack + seq![v1, v2, r]);
    assert(m4 == halted(m.stack + seq![v1, v2, r], m.vars).0);
    assert(m0.settle() == m4.settle());
}

/// `Push(v1)`, `Push(v2)` and an `Add` of operands that stand for the two
/// numbers leave their sum on top of the stack: wrapped to 32 bits, so the
/// sum itself where it fits.
pub proof fn law_push_push_add(m: Machine, v1: i32, v2: i32, a: SpecOperand, b: SpecOperand)
    requires
        m.frames.len() == 0,
        m.value_of(a) == Some(v1),
        m.value_of(b) == Some(v2),
    ensures
        m.run(
            seq![SpecInstruction::Push(v1), SpecInstruction::Push(v2), SpecInstruction::Add(a, b)],
        ) == halted(m.stack + seq![v1, v2, wrap32(v1 + v2)], m.vars),
        i32::MIN <= v1 + v2 <= i32::MAX ==> wrap32(v1 + v2) == v1 + v2,
{
    lemma_push_push_then(m, v1, v2, SpecInstruction::Add(a, b), wrap32(v1 + v2));
}

/// `Push(v1)`, `Push(v2)` and a `Sub` of operands that stand for the two
/// numbers leave the first minus the second on top of the stack: wrapped to
/// 32 bits, so the difference itself where it fits.
pub proof fn law_push_push_sub(m: Machine, v1: i32, v2: i32, a: SpecOperand, b: SpecOperand)
    requires
        m.frames.len() == 0,
        m.value_of(a) == Some(v1),
        m.value_of(b) == Some(v2),
    ensures
        m.run(
            seq![SpecInstruction::Push(v1), SpecInstruction::Push(v2), SpecInstruction::Sub(a, b)],
        ) == halted(m.stack + seq![v1, v2, wrap32(v1 - v2)], m.vars),
        i32::MIN <= v1 - v2 <= i32::MAX ==> wrap32(v1 - v2) == v1 - v2,
{
    lemma_push_push_then(m, v1, v2, SpecInstruction::Sub(a, b), wrap32(v1 - v2));
}

/// `Push(v1)`, `Push(v2)` and a `Mul` of operands that stand for the two
/// numbers leave their product on top of the stack: wrapped to 32 bits, so
/// the product itself where it fits.
pub proof fn law_push_push_mul(m: Machine, v1: i32, v2: i32, a: SpecOperand, b: SpecOperand)
    requires
        m.frames.len() == 0,
        m.value_of(a) == Some(v1),
        m.value_of(b) == Some(v2),
    ensures
        m.run(
            seq![SpecInstruction::Push(v1), SpecInstruction::Push(v2), SpecInstruction::Mul(a, b)],
        ) == halted(m.stack + seq![v1, v2, wrap32(v1 * v2)], m.vars),
        i32::MIN <= v1 * v2 <= i32::MAX ==> wrap32(v1 * v2) == v1 * v2,
{
    lemma_push_push_then(m, v1, v2, SpecInstruction::Mul(a, b), wrap32(v1 * v2));
}

/// `Push(v1)`, `Push(v2)` and a `Div` of operands that stand for the two
/// numbers, the second not zero, leave the first divided by the second on
/// top of the stack, rounded towards zero: wrapped to 32 bits, so the
/// quotient itself unless the least number is divided by -1.
pub proof fn law_push_push_div(m: Machine, v1: i32, v2: i32, a: SpecOperand, b: SpecOperand)
    requires
        m.frames.len() == 0,
        m.value_of(a) == Some(v1),
        m.value_of(b) == Some(v2),
        v2 != 0,
    ensures
        m.run(
            seq![SpecInstruction::Push(v1), SpecInstruction::Push(v2), SpecInstruction::Div(a, b)],
        ) == halted(m.stack + seq![v1, v2, wrap32(quotient(v1 as int, v2 as int))], m.vars),
        !(v1 == i32::MIN && v2 == -1) ==> wrap32(quotient(v1 as int, v2 as int)) == quotient(
            v1 as int,
            v2 as int,
        ),
{
    lemma_push_push_then(
        m,
        v1,
        v2,
        SpecInstruction::Div(a, b),
        wrap32(quotient(v1 as int, v2 as int)),
    );
    lemma_quotient_bound(v1 as int, v2 as int);
    if v1 == i32::MIN && v2 != -1 {
        lemma_quotient_least(v2 as int);
    }
}

/// The least 32-bit number divided by anything but -1 and 0 fits in 32
/// bits.
proof fn lemma_quotient_least(b: int)
    requires
        b != 0,
        b != -1,
    ensures
        quotient(i32::MIN as int, b) <= i32::MAX,
{
    if b < 0 {
        assert(0x8000_0000int / (-b) <= 0x4000_0000) by (nonlinear_arith)
            requires
                -b >= 2,
        ;
    } else {
        assert(0x8000_0000int / b >= 0) by (nonlinear_arith)
            requires
                b >= 1,
        ;
    }
}

// ----------------------------------------------------------------------
// Variables
// ----------------------------------------------------------------------

/// `SetVar` of a variable followed by `Get` of the same variable leaves
/// the number that was set on top of the stack.
pub proof fn law_set_then_get(m: Machine, name: Seq<char>, v: i32)
    requires
        m.frames.len() == 0,
    ensures
        m.run(seq![SpecInstruction::SetVar(name, v), SpecInstruction::Get(name)]) == halted(
            m.stack.push(v),
            m.vars.insert(name, v),
        ),
{
    let program: Seq<SpecInstruction> = seq![
        SpecInstruction::SetVar(name, v),
        SpecInstruction::Get(name),
    ];
    reveal_with_fuel(Machine::settle, 5);
    let m0: Machine = m.entered(program);
    let m1: Machine = m0.step().0;
    assert(m1.frames =~~= seq![program.skip(1)]);
    let m2: Machine = m1.step().0;
    assert(m2.frames =~~= seq![Seq::<SpecInstruction>::empty()]);
    let m3: Machine = m2.step().0;
    assert(m3.frames =~~= Seq::<Seq<SpecInstruction>>::empty());
    assert(m3 == halted(m.stack.push(v), m.vars.insert(name, v)).0);
    assert(m0.settle() == m3.settle());
}

/// `Get` of a variable that is not bound is a fault, and the machine stays
/// as it is.
pub proof fn law_get_unbound(m: Machine, name: Seq<char>)
    requires
        m.current() == Some(SpecInstruction::Get(name)),
        !m.vars.contains_key(name),
    ensures
        m.resume(SpecEvent::Resume) == (m, Err::<SpecAction, Fault>(Fault::UnboundVariable)),
{
}

// ----------------------------------------------------------------------
// Faults and tolerance
// ----------------------------------------------------------------------

/// A `Div` whose second operand is zero is a fault, whatever stands before
/// and after it, and the machine stays as it is.
pub proof fn law_division_by_zero(m: Machine, a: SpecOperand, b: SpecOperand)
    requires
        m.current() == Some(SpecInstruction::Div(a, b)),
        m.value_of(a) is Some,
        m.value_of(b) == Some(0i32),
    ensures
        m.resume(SpecEvent::Resume) == (m, Err::<SpecAction, Fault>(Fault::DivisionByZero)),
{
}

/// `Push(v)`, `Push(0)` and a `Div` whose second operand stands for that
/// zero are a fault, whatever instructions follow: the machine stops at the
/// `Div` with the two numbers on its stack.
pub proof fn law_push_push_div_by_zero(
    m: Machine,
    v: i32,
    a: SpecOperand,
    b: SpecOperand,
    after: Seq<SpecInstruction>,
)
    requires
        m.frames.len() == 0,
        m.value_of(a) is Some,
        m.value_of(b) == Some(0i32),
    ensures
        m.run(
            seq![SpecInstruction::Push(v), SpecInstruction::Push(0), SpecInstruction::Div(a, b)]
                + after,
        ) == (
            Machine {
                stack: m.stack + seq![v, 0i32],
                vars: m.vars,
                frames: seq![seq![SpecInstruction::Div(a, b)] + after],
            },
            Err::<SpecAction, Fault>(Fault::DivisionByZero),
        ),
{
    let program: Seq<SpecInstruction> = seq![
        SpecInstruction::Push(v),
        SpecInstruction::Push(0),
        SpecInstruction::Div(a, b),
    ] + after;
    reveal_with_fuel(Machine::settle, 4);
    let m0: Machine = m.entered(program);
    let m1: Machine = m0.step().0;
    assert(m1.frames =~~= seq![program.skip(1)]);
    let m2: Machine = m1.step().0;
    assert(m2.frames =~~= seq![seq![SpecInstruction::Div(a, b)] + after]);
    assert(m2.stack =~= m.stack + seq![v, 0i32]);
    assert(m2.step() == m2.fails(Fault::DivisionByZero));
}

/// `Print` on an empty stack shows a fixed text, and the machine goes on
/// with the next instruction.
pub proof fn law_print_empty_stack(m: Machine)
    requires
        m.current() == Some(SpecInstruction::Print),
        m.stack.len() == 0,
    ensures
        m.resume(SpecEvent::Resume) == (
            m.advanced(),
            Ok::<SpecAction, Fault>(SpecAction::Print("Stack is empty"@)),
        ),
{
}

// ----------------------------------------------------------------------
// Reading the source again
// ----------------------------------------------------------------------

/// An `If` whose test fails and whose second block is not empty runs that
/// block and then the whole program as the source gives it when it is read
/// again, from its first instruction on; only then does the machine go on
/// behind the `If`.
pub proof fn law_source_is_run_again(
    m: Machine,
    lines: Seq<Seq<char>>,
    program: Seq<SpecInstruction>,
)
    requires
        m.awaits_source(),
        m.has_room(),
        program_of(lines) == Ok::<Seq<SpecInstruction>, Fault>(program),
    ensures
        m.resume(SpecEvent::Resume) == (m, Ok::<SpecAction, Fault>(SpecAction::ReadSource)),
        m.resume(SpecEvent::Source(lines)) == m.advanced().entered(
            m.otherwise() + program,
        ).settle(),
{
}

// ----------------------------------------------------------------------
// Depth
// ----------------------------------------------------------------------

/// Whether the machine is inside of no more blocks than it can be.
pub open spec fn within_depth(m: Machine) -> bool {
    m.frames.len() <= MAX_DEPTH
}

/// Running until the machine stops keeps it within its depth.
proof fn lemma_settle_within_depth(m: Machine)
    requires
        within_depth(m),
    ensures
        within_depth(m.settle().0),
    decreases work(m.frames),
{
    if m.step().1 == Ok::<Option<SpecAction>, Fault>(None) {
        lemma_step_decreases(m);
        lemma_settle_within_depth(m.step().0);
    }
}

/// However a machine is run, it is never inside of more than `MAX_DEPTH`
/// blocks: what would take it deeper is a fault instead.
pub proof fn law_depth_is_bounded(m: Machine, event: SpecEvent, program: Seq<SpecInstruction>)
    requires
        within_depth(m),
    ensures
        within_depth(m.resume(event).0),
        within_depth(m.run(program).0),
{
    match m.deliver(event) {
        Ok(next) => {
            lemma_settle_within_depth(next);
        },
        Err(_) => {},
    }
    if m.has_room() {
        lemma_settle_within_depth(m.entered(program));
    }
}

// ----------------------------------------------------------------------
// Words
// ----------------------------------------------------------------------

/// Whether `[from, to)` is a run of `s`: a stretch of non-space characters,
/// not empty, that cannot be made longer at either end.
pub open spec fn is_run(s: Seq<char>, from: int, to: int) -> bool {
    &&& 0 <= from < to <= s.len()
    &&& forall|j: int| from <= j < to ==> !is_space(#[trigger] s[j])
    &&& from == 0 || is_space(s[from - 1])
    &&& to == s.len() || is_space(s[to])
}

/// Whether one of `found` holds the position `j`.
pub open spec fn covered(found: Seq<(int, int)>, j: int) -> bool {
    exists|k: int| 0 <= k < found.len() && (#[trigger] found[k]).0 <= j < found[k].1
}

/// Whether `found` are the runs of `s` from position `i` on: each of them a
/// run, from left to right, and every non-space character in one of them.
pub open spec fn are_runs_from(s: Seq<char>, i: int, found: Seq<(int, int)>) -> bool {
    &&& forall|k: int|
        0 <= k < found.len() ==> i <= (#[trigger] found[k]).0 && is_run(s, found[k].0, found[k].1)
    &&& forall|k: int, l: int|
        0 <= k < l < found.len() ==> (#[trigger] found[k]).1 < (#[trigger] found[l]).0
    &&& forall|j: int| i <= j < s.len() && !is_space(#[trigger] s[j]) ==> covered(found, j)
}

/// Splitting at white space gives the runs of non-space characters: each
/// word is one, they come from left to right, and none is left out.
pub proof fn law_words_are_the_runs(s: Seq<char>)
    ensures
        are_runs_from(s, 0, spans(s)),
{
    lemma_runs_from(s, 0);
}

/// From a position that starts the line or follows white space on, the
/// spans are the runs.
proof fn lemma_runs_from(s: Seq<char>, i: int)
    requires
        0 <= i <= s.len(),
        i == 0 || is_space(s[i - 1]),
    ensures
        are_runs_from(s, i, spans_from(s, i)),
    decreases s.len() - i,
{
    let found: Seq<(int, int)> = spans_from(s, i);
    if i >= s.len() {
    } else if is_space(s[i]) {
        lemma_runs_from(s, i + 1);
        assert(found == spans_from(s, i + 1));
    } else {
        let end: int = word_end(s, i);
        lemma_word_end(s, i);
        let rest: Seq<(int, int)> = spans_from(s, end);
        assert(found =~= seq![(i, end)] + rest);
        assert(is_run(s, i, end));
        if end < s.len() {
            lemma_runs_from(s, end + 1);
            assert(rest == spans_from(s, end + 1));
        }
        assert(are_runs_from(s, end + 1, rest));
        assert forall|k: int| 0 <= k < found.len() implies i <= (#[trigger] found[k]).0 && is_run(
            s,
            found[k].0,
            found[k].1,
        ) by {
            if k > 0 {
                assert(found[k] == rest[k - 1]);
            }
        }
        assert forall|k: int, l: int| 0 <= k < l < found.len() implies (#[trigger] found[k]).1 < (
        #[trigger] found[l]).0 by {
            assert(found[l] == rest[l - 1]);
            if k > 0 {
                assert(found[k] == rest[k - 1]);
            }
        }
        assert forall|j: int| i <= j < s.len() && !is_space(#[trigger] s[j]) implies covered(
            found,
            j,
        ) by {
            if j < end {
                assert(found[0].0 <= j < found[0].1);
            } else {
                assert(covered(rest, j));
                let k: int = choose|k: int|
                    0 <= k < rest.len() && (#[trigger] rest[k]).0 <= j < rest[k].1;
                assert(found[k + 1] == rest[k]);
            }
        }
    }
}

// ----------------------------------------------------------------------
// Numbers as text
// ----------------------------------------------------------------------

/// The decimal text of a natural number holds digits only, at least one,
/// and denotes that number.
proof fn lemma_decimal_nat(n: nat)
    ensures
        decimal_nat(n).len() > 0,
        all_digits(decimal_nat(n)),
        digits_value(decimal_nat(n)) == n,
    decreases n,
{
    let d: int = (n % 10) as int;
    assert(is_digit(digit_char(d)) && digit_value(digit_char(d)) == d);
    if n < 10 {
        let text: Seq<char> = seq![digit_char(d)];
        assert(text.drop_last() =~= Seq::<char>::empty());
        assert(digits_value(text.drop_last()) == 0);
    } else {
        lemma_decimal_nat(n / 10);
        let front: Seq<char> = decimal_nat(n / 10);
        let text: Seq<char> = front.push(digit_char(d));
        assert(text.drop_last() =~= front);
        assert forall|k: int| 0 <= k < text.len() implies is_digit(#[trigger] text[k]) by {
            if k < front.len() {
                assert(text[k] == front[k]);
            }
        }
    }
}

/// What is shown for a number reads back as that number: the decimal text
/// of a signed 32-bit integer denotes it.
pub proof fn law_decimal_reads_back(v: i32)
    ensures
        parse_i32(decimal(v as int)) == Some(v),
{
    if v < 0 {
        let digits: Seq<char> = decimal_nat((-v) as nat);
        lemma_decimal_nat((-v) as nat);
        assert(decimal(v as int).skip(1) =~= digits);
    } else {
        let digits: Seq<char> = decimal_nat(v as nat);
        lemma_decimal_nat(v as nat);
        assert(is_digit(digits[0]));
    }
}

// ----------------------------------------------------------------------
// Lines that are no instruction
// ----------------------------------------------------------------------

/// Whether a line is an instruction or nothing, and no word that opens or
/// closes a block.
pub open spec fn is_plain(line: Seq<char>) -> bool {
    &&& line_instructions(line) is Ok
    &&& !starts_with_word(line, "IF"@)
    &&& !starts_with_word(line, "ELSE"@)
    &&& !starts_with_word(line, "ENDIF"@)
}

/// The instructions of plain lines, one line after the other.
pub open spec fn joined(lines: Seq<Seq<char>>) -> Seq<SpecInstruction>
    decreases lines.len(),
{
    if lines.len() == 0 {
        Seq::empty()
    } else {
        joined(lines.drop_last()) + line_instructions(lines.last())->Ok_0
    }
}

/// The loader after `lines` have been read on top of what it held.
pub open spec fn fed(st: Loader, lines: Seq<Seq<char>>) -> Result<Loader, Fault>
    decreases lines.len(),
{
    if lines.len() == 0 {
        Ok(st)
    } else {
        match fed(st, lines.drop_last()) {
            Ok(before) => feed(before, lines.last()),
            Err(fault) => Err(fault),
        }
    }
}

/// Reading lines one after the other is reading the first of them and then
/// the rest.
proof fn lemma_fed_concat(st: Loader, a: Seq<Seq<char>>, b: Seq<Seq<char>>)
    ensures
        fed(st, a + b) == match fed(st, a) {
            Ok(middle) => fed(middle, b),
            Err(fault) => Err(fault),
        },
    decreases b.len(),
{
    if b.len() == 0 {
        assert(a + b =~= a);
    } else {
        lemma_fed_concat(st, a, b.drop_last());
        assert((a + b).drop_last() =~= a + b.drop_last());
        assert((a + b).last() == b.last());
    }
}

/// Reading from the start is what the loader does.
proof fn lemma_fed_from_start(lines: Seq<Seq<char>>)
    ensures
        fed(loader_start(), lines) == loader_after(lines),
    decreases lines.len(),
{
    if lines.len() > 0 {
        lemma_fed_from_start(lines.drop_last());
    }
}

/// Plain lines join the open block, or the program where none is open, in
/// their order.
proof fn lemma_fed_plain(st: Loader, lines: Seq<Seq<char>>)
    requires
        forall|k: int| 0 <= k < lines.len() ==> is_plain(#[trigger] lines[k]),
    ensures
        fed(st, lines) == Ok::<Loader, Fault>(
            match st.mode {
                BlockMode::Outside => Loader { program: st.program + joined(lines), ..st },
                BlockMode::InIf => Loader { if_block: st.if_block + joined(lines), ..st },
                BlockMode::InElse => Loader { else_block: st.else_block + joined(lines), ..st },
            },
        ),
    decreases lines.len(),
{
    if lines.len() == 0 {
        assert(st.program + joined(lines) =~= st.program);
        assert(st.if_block + joined(lines) =~= st.if_block);
        assert(st.else_block + joined(lines) =~= st.else_block);
    } else {
        let front: Seq<Seq<char>> = lines.drop_last();
        assert forall|k: int| 0 <= k < front.len() implies is_plain(#[trigger] front[k]) by {
            assert(front[k] == lines[k]);
        }
        lemma_fed_plain(st, front);
        assert(is_plain(lines[lines.len() - 1]));
        let found: Seq<SpecInstruction> = line_instructions(lines.last())->Ok_0;
        assert(st.program + joined(front) + found =~= st.program + joined(lines));
        assert(st.if_block + joined(front) + found =~= st.if_block + joined(lines));
        assert(st.else_block + joined(front) + found =~= st.else_block + joined(lines));
    }
}

/// Lines outside of any block stand for their instructions, in the order
/// of the lines.
pub proof fn law_plain_lines(lines: Seq<Seq<char>>)
    requires
        forall|k: int| 0 <= k < lines.len() ==> is_plain(#[trigger] lines[k]),
    ensures
        program_of(lines) == Ok::<Seq<SpecInstruction>, Fault>(joined(lines)),
{
    lemma_fed_from_start(lines);
    lemma_fed_plain(loader_start(), lines);
    assert(Seq::<SpecInstruction>::empty() + joined(lines) =~= joined(lines));
}

/// Plain lines, then a block of plain lines between `IF` and `ENDIF`, then
/// plain lines again stand for the instructions of the first, an `If` that
/// holds those of the block and nothing for where its test fails, and the
/// instructions of the last.
pub proof fn law_if_block(
    before: Seq<Seq<char>>,
    opening: Seq<char>,
    body: Seq<Seq<char>>,
    closing: Seq<char>,
    after: Seq<Seq<char>>,
)
    requires
        forall|k: int| 0 <= k < before.len() ==> is_plain(#[trigger] before[k]),
        forall|k: int| 0 <= k < body.len() ==> is_plain(#[trigger] body[k]),
        forall|k: int| 0 <= k < after.len() ==> is_plain(#[trigger] after[k]),
        starts_with_word(opening, "IF"@),
        starts_with_word(closing, "ENDIF"@),
    ensures
        program_of(before + seq![opening] + body + seq![closing] + after) == Ok::<
            Seq<SpecInstruction>,
            Fault,
        >(
            joined(before).push(SpecInstruction::If(joined(body), Seq::empty())) + joined(
                after,
            ),
        ),
{
    let start: Loader = loader_start();
    let lines: Seq<Seq<char>> = before + seq![opening] + body + seq![closing] + after;
    lemma_fed_from_start(lines);
    lemma_fed_concat(start, before + seq![opening] + body + seq![closing], after);
    lemma_fed_concat(start, before + seq![opening] + body, seq![closing]);
    lemma_fed_concat(start, before + seq![opening], body);
    lemma_fed_concat(start, before, seq![opening]);
    lemma_fed_plain(start, before);
    let s1: Loader = Loader { program: joined(before), ..start };
    assert(start.program + joined(before) =~= joined(before));
    assert(fed(start, before) == Ok::<Loader, Fault>(s1));
    lemma_fed_one(s1, opening);
    let s2: Loader = Loader { mode: BlockMode::InIf, ..s1 };
    assert(fed(s1, seq![opening]) == Ok::<Loader, Fault>(s2));
    lemma_fed_plain(s2, body);
    let s3: Loader = Loader { if_block: joined(body), ..s2 };
    assert(s2.if_block + joined(body) =~= joined(body));
    assert(fed(s2, body) == Ok::<Loader, Fault>(s3));
    lemma_fed_one(s3, closing);
    lemma_closing_is_no_instruction(closing);
    let branch: SpecInstruction = SpecInstruction::If(joined(body), Seq::empty());
    let s4: Loader = Loader { program: joined(before).push(branch), ..start };
    assert(joined(body) + Seq::<SpecInstruction>::empty() =~= joined(body));
    assert(fed(s3, seq![closing]) == Ok::<Loader, Fault>(s4));
    lemma_fed_plain(s4, after);
}

/// Reading one line is feeding it.
proof fn lemma_fed_one(st: Loader, line: Seq<char>)
    ensures
        fed(st, seq![line]) == feed(st, line),
{
    reveal_with_fuel(fed, 2);
    assert(seq![line].drop_last() =~= Seq::<Seq<char>>::empty());
}

/// A line that starts with `ENDIF` is no instruction.
proof fn lemma_closing_is_no_instruction(line: Seq<char>)
    requires
        starts_with_word(line, "ENDIF"@),
    ensures
        line_instructions(line) == Ok::<Seq<SpecInstruction>, Fault>(Seq::empty()),
        !starts_with_word(line, "IF"@),
        !starts_with_word(line, "ELSE"@),
{
    reveal_strlit("ENDIF");
    reveal_strlit("IF");
    reveal_strlit("ELSE");
    reveal_strlit("PUSH");
    reveal_strlit("ADD");
    reveal_strlit("SUB");
    reveal_strlit("MUL");
    reveal_strlit("DIV");
    reveal_strlit("PRINT");
    reveal_strlit("SET");
    reveal_strlit("GET");
    reveal_strlit("Input");
    let word: Seq<char> = "ENDIF"@;
    assert(word.len() == 5 && word[0] == 'E');
    assert("IF"@.len() == 2);
    assert("ELSE"@.len() == 4);
    assert("PUSH"@.len() == 4);
    assert("ADD"@.len() == 3);
    assert("SUB"@.len() == 3);
    assert("MUL"@.len() == 3);
    assert("DIV"@.len() == 3);
    assert("SET"@.len() == 3);
    assert("GET"@.len() == 3);
    assert("PRINT"@[0] == 'P');
    assert("Input"@[0] == 'I');
}

/// Whether a line leaves the loader as it is: it is plain and stands for
/// no instruction.
pub open spec fn is_skipped(line: Seq<char>) -> bool {
    is_plain(line) && line_instructions(line) == Ok::<Seq<SpecInstruction>, Fault>(Seq::empty())
}

/// A line that is no instruction, anywhere in a program, adds nothing to
/// it: the program is the one that the other lines stand for.
pub proof fn law_skipped_line(before: Seq<Seq<char>>, line: Seq<char>, after: Seq<Seq<char>>)
    requires
        is_skipped(line),
    ensures
        program_of(before + seq![line] + after) == program_of(before + after),
{
    lemma_skipped_line(before, line, after);
}

/// The loader itself is what it would be without the line.
proof fn lemma_skipped_line(before: Seq<Seq<char>>, line: Seq<char>, after: Seq<Seq<char>>)
    requires
        is_skipped(line),
    ensures
        loader_after(before + seq![line] + after) == loader_after(before + after),
    decreases after.len(),
{
    let with: Seq<Seq<char>> = before + seq![line] + after;
    let without: Seq<Seq<char>> = before + after;
    if after.len() == 0 {
        assert(with.drop_last() =~= before);
        assert(without =~= before);
        assert(with.last() == line);
        match loader_after(before) {
            Ok(st) => {
                let fed: Loader = feed(st, line)->Ok_0;
                assert(st.program + Seq::<SpecInstruction>::empty() =~= st.program);
                assert(st.if_block + Seq::<SpecInstruction>::empty() =~= st.if_block);
                assert(st.else_block + Seq::<SpecInstruction>::empty() =~= st.else_block);
                assert(fed == st);
            },
            Err(_) => {},
        }
    } else {
        lemma_skipped_line(before, line, after.drop_last());
        assert(with.drop_last() =~= before + seq![line] + after.drop_last());
        assert(without.drop_last() =~= before + after.drop_last());
        assert(with.last() == without.last());
    }
}

} // verus!
