//! From program text to instructions.
//!
//! A program is a sequence of lines. Each line is split at white space; its
//! first word selects the instruction and the words after it are the
//! arguments. A line that has no such shape stands for no instruction. The
//! words `IF`, `ELSE` and `ENDIF` open and close blocks, which are gathered
//! into `If` and `Else` instructions.

use crate::fault::Fault;
use crate::instruction::{
    block_view, lemma_block_view_concat, lemma_block_view_push, Instruction, Operand,
    SpecInstruction, SpecOperand,
};
use crate::machine::VM;
use crate::text::{chars_of, parse_i32, parse_int, span_ints, spans, spells, split_words, words};
use vstd::prelude::*;
use vstd::slice::slice_subrange;

verus! {

// ----------------------------------------------------------------------
// Operands
// ----------------------------------------------------------------------

/// The opening of an operand written in tagged form: `Var("`.
pub open spec fn tag_open() -> Seq<char> {
    seq!['V', 'a', 'r', '(', '"']
}

/// The closing of an operand written in tagged form: `")`.
pub open spec fn tag_close() -> Seq<char> {
    seq!['"', ')']
}

/// `s` with every leading copy of `p` taken away.
pub open spec fn strip_prefixes(s: Seq<char>, p: Seq<char>) -> Seq<char>
    decreases s.len(),
{
    if 0 < p.len() <= s.len() && s.take(p.len() as int) == p {
        strip_prefixes(s.skip(p.len() as int), p)
    } else {
        s
    }
}

/// `s` with every trailing copy of `p` taken away.
pub open spec fn strip_suffixes(s: Seq<char>, p: Seq<char>) -> Seq<char>
    decreases s.len(),
{
    if 0 < p.len() <= s.len() && s.skip(s.len() - p.len()) == p {
        strip_suffixes(s.take(s.len() - p.len()), p)
    } else {
        s
    }
}

/// The text of an operand without its tagged wrapping: first the leading
/// `Var("` are taken away, then the trailing `")`.
pub open spec fn untagged(s: Seq<char>) -> Seq<char> {
    strip_suffixes(strip_prefixes(s, tag_open()), tag_close())
}

/// The operand that a word stands for: a literal where the word is a
/// numeral that fits, else the variable of that name.
pub open spec fn operand_of(s: Seq<char>) -> SpecOperand {
    match parse_i32(s) {
        Some(v) => SpecOperand::Value(v),
        None => SpecOperand::Var(s),
    }
}

/// Finds the part of `s` that is left when the tagged wrapping is taken
/// away.
fn untagged_bounds(s: &[char]) -> (r: (usize, usize))
    ensures
        r.0 <= r.1 <= s.len(),
        s@.subrange(r.0 as int, r.1 as int) == untagged(s@),
{
    let n: usize = s.len();
    let mut i: usize = 0;
    assert(s@.skip(0) =~= s@);
    while n - i >= 5 && s[i] == 'V' && s[i + 1] == 'a' && s[i + 2] == 'r' && s[i + 3] == '('
        && s[i + 4] == '"'
        invariant
            n == s.len(),
            i <= n,
            strip_prefixes(s@, tag_open()) == strip_prefixes(s@.skip(i as int), tag_open()),
        decreases n - i,
    {
        proof {
            let rest: Seq<char> = s@.skip(i as int);
            assert(rest.take(5) =~= tag_open());
            assert(rest.skip(5) =~= s@.skip(i + 5));
        }
        i += 5;
    }
    proof {
        let rest: Seq<char> = s@.skip(i as int);
        if rest.len() >= 5 && rest.take(5) == tag_open() {
            assert(rest.take(5)[0] == 'V');
            assert(rest.take(5)[1] == 'a');
            assert(rest.take(5)[2] == 'r');
            assert(rest.take(5)[3] == '(');
            assert(rest.take(5)[4] == '"');
        }
        assert(strip_prefixes(rest, tag_open()) == rest);
        assert(rest =~= s@.subrange(i as int, n as int));
    }
    let mut j: usize = n;
    while j - i >= 2 && s[j - 2] == '"' && s[j - 1] == ')'
        invariant
            n == s.len(),
            i <= j <= n,
            untagged(s@) == strip_suffixes(s@.subrange(i as int, j as int), tag_close()),
        decreases j,
    {
        proof {
            let rest: Seq<char> = s@.subrange(i as int, j as int);
            assert(rest.skip(rest.len() - 2) =~= tag_close());
            assert(rest.take(rest.len() - 2) =~= s@.subrange(i as int, j - 2));
        }
        j -= 2;
    }
    proof {
        let rest: Seq<char> = s@.subrange(i as int, j as int);
        if rest.len() >= 2 && rest.skip(rest.len() - 2) == tag_close() {
            assert(rest.skip(rest.len() - 2)[0] == '"');
            assert(rest.skip(rest.len() - 2)[1] == ')');
        }
        assert(strip_suffixes(rest, tag_close()) == rest);
    }
    (i, j)
}

/// Takes the tagged wrapping off an operand: every leading `Var("`, then
/// every trailing `")`.
pub fn extract_var_name(operand: &str) -> (r: &str)
    ensures
        r@ == untagged(operand@),
{
    let chars: Vec<char> = chars_of(operand);
    let (from, to): (usize, usize) = untagged_bounds(chars.as_slice());
    operand.substring_char(from, to)
}

/// Reads a word as an operand: a literal if it is a numeral that fits in 32
/// bits, else the name of a variable.
pub fn parse_operand(op_str: &str) -> (r: Operand)
    ensures
        r@ == operand_of(op_str@),
{
    let chars: Vec<char> = chars_of(op_str);
    match parse_int(chars.as_slice()) {
        Some(v) => Operand::Value(v),
        None => Operand::Var(op_str.to_owned()),
    }
}

// ----------------------------------------------------------------------
// Lines
// ----------------------------------------------------------------------

/// The instructions that a line with the words `w` stands for: one
/// instruction where the words have the shape of one, none where they have
/// not, and a fault where the number of a `PUSH` or `SET` line is no signed
/// 32-bit integer.
pub open spec fn words_instructions(w: Seq<Seq<char>>) -> Result<Seq<SpecInstruction>, Fault> {
    if w.len() == 2 && w[0] == "PUSH"@ {
        match parse_i32(w[1]) {
            Some(v) => Ok(seq![SpecInstruction::Push(v)]),
            None => Err(Fault::InvalidNumber),
        }
    } else if w.len() == 3 && w[0] == "ADD"@ {
        Ok(seq![SpecInstruction::Add(operand_of(untagged(w[1])), operand_of(untagged(w[2])))])
    } else if w.len() == 3 && w[0] == "SUB"@ {
        Ok(seq![SpecInstruction::Sub(operand_of(untagged(w[1])), operand_of(untagged(w[2])))])
    } else if w.len() == 3 && w[0] == "MUL"@ {
        Ok(seq![SpecInstruction::Mul(operand_of(untagged(w[1])), operand_of(untagged(w[2])))])
    } else if w.len() == 3 && w[0] == "DIV"@ {
        Ok(seq![SpecInstruction::Div(operand_of(untagged(w[1])), operand_of(untagged(w[2])))])
    } else if w.len() == 1 && w[0] == "PRINT"@ {
        Ok(seq![SpecInstruction::Print])
    } else if w.len() == 3 && w[0] == "SET"@ {
        match parse_i32(w[2]) {
            Some(v) => Ok(seq![SpecInstruction::SetVar(w[1], v)]),
            None => Err(Fault::InvalidNumber),
        }
    } else if w.len() == 2 && w[0] == "GET"@ {
        Ok(seq![SpecInstruction::Get(w[1])])
    } else if w.len() == 2 && w[0] == "Input"@ {
        Ok(seq![SpecInstruction::Input(w[1])])
    } else {
        Ok(Seq::empty())
    }
}

/// The instructions that one line of text stands for.
pub open spec fn line_instructions(line: Seq<char>) -> Result<Seq<SpecInstruction>, Fault> {
    words_instructions(words(line))
}

/// The view of what reading a program gives back.
pub open spec fn program_view(r: Result<Vec<Instruction>, Fault>) -> Result<
    Seq<SpecInstruction>,
    Fault,
> {
    match r {
        Ok(program) => Ok(block_view(program@)),
        Err(fault) => Err(fault),
    }
}

/// What a line that is no instruction stands for.
fn no_instructions() -> (r: Vec<Instruction>)
    ensures
        block_view(r@) == Seq::<SpecInstruction>::empty(),
{
    let r: Vec<Instruction> = Vec::new();
    assert(block_view(r@) =~= Seq::<SpecInstruction>::empty());
    r
}

/// Reads the word at `part` as an operand.
fn operand_at(line: &str, part: (usize, usize)) -> (r: Operand)
    requires
        part.0 <= part.1 <= line@.len(),
    ensures
        r@ == operand_of(untagged(line@.subrange(part.0 as int, part.1 as int))),
{
    parse_operand(extract_var_name(line.substring_char(part.0, part.1)))
}

/// The characters of the word at `part`.
fn word_at(chars: &[char], part: (usize, usize)) -> (r: &[char])
    requires
        part.0 <= part.1 <= chars.len(),
    ensures
        r@ == chars@.subrange(part.0 as int, part.1 as int),
{
    slice_subrange(chars, part.0, part.1)
}

/// Reads a line that has been split into words already.
fn parse_words(line: &str, chars: &[char], parts: &Vec<(usize, usize)>) -> (r: Result<
    Vec<Instruction>,
    Fault,
>)
    requires
        chars@ == line@,
        span_ints(parts@) == spans(line@),
        forall|k: int| 0 <= k < parts.len() ==> (#[trigger] parts[k]).0 < parts[k].1 <= chars.len(),
    ensures
        program_view(r) == line_instructions(line@),
{
    let n: usize = parts.len();
    let ghost w: Seq<Seq<char>> = words(line@);
    assert(w.len() == n);
    assert forall|k: int| 0 <= k < n implies #[trigger] w[k] == line@.subrange(
        parts[k].0 as int,
        parts[k].1 as int,
    ) by {
        assert(span_ints(parts@)[k] == spans(line@)[k]);
    }
    if n == 0 {
        return Ok(no_instructions());
    }
    let head: (usize, usize) = parts[0];
    assert(w[0] == line@.subrange(head.0 as int, head.1 as int));
    if n == 1 {
        if spells(word_at(chars, head), "PRINT") {
            let program: Vec<Instruction> = vec![Instruction::Print];
            assert(block_view(program@) =~= seq![SpecInstruction::Print]);
            Ok(program)
        } else {
            Ok(no_instructions())
        }
    } else if n == 2 {
        let arg: (usize, usize) = parts[1];
        assert(w[1] == line@.subrange(arg.0 as int, arg.1 as int));
        if spells(word_at(chars, head), "PUSH") {
            match parse_int(word_at(chars, arg)) {
                Some(v) => {
                    let program: Vec<Instruction> = vec![Instruction::Push(v)];
                    assert(block_view(program@) =~= seq![SpecInstruction::Push(v)]);
                    Ok(program)
                },
                None => Err(Fault::InvalidNumber),
            }
        } else if spells(word_at(chars, head), "GET") {
            let name: String = line.substring_char(arg.0, arg.1).to_owned();
            let program: Vec<Instruction> = vec![Instruction::Get(name)];
            assert(block_view(program@) =~= seq![SpecInstruction::Get(w[1])]);
            Ok(program)
        } else if spells(word_at(chars, head), "Input") {
            let name: String = line.substring_char(arg.0, arg.1).to_owned();
            let program: Vec<Instruction> = vec![Instruction::Input(name)];
            assert(block_view(program@) =~= seq![SpecInstruction::Input(w[1])]);
            Ok(program)
        } else {
            Ok(no_instructions())
        }
    } else if n == 3 {
        let first: (usize, usize) = parts[1];
        let second: (usize, usize) = parts[2];
        assert(w[1] == line@.subrange(first.0 as int, first.1 as int));
        assert(w[2] == line@.subrange(second.0 as int, second.1 as int));
        if spells(word_at(chars, head), "ADD") {
            let x: Operand = operand_at(line, first);
            let y: Operand = operand_at(line, second);
            let program: Vec<Instruction> = vec![Instruction::Add(x, y)];
            assert(block_view(program@) =~= seq![SpecInstruction::Add(x@, y@)]);
            Ok(program)
        } else if spells(word_at(chars, head), "SUB") {
            let x: Operand = operand_at(line, first);
            let y: Operand = operand_at(line, second);
            let program: Vec<Instruction> = vec![Instruction::Sub(x, y)];
            assert(block_view(program@) =~= seq![SpecInstruction::Sub(x@, y@)]);
            Ok(program)
        } else if spells(word_at(chars, head), "MUL") {
            let x: Operand = operand_at(line, first);
            let y: Operand = operand_at(line, second);
            let program: Vec<Instruction> = vec![Instruction::Mul(x, y)];
            assert(block_view(program@) =~= seq![SpecInstruction::Mul(x@, y@)]);
            Ok(program)
        } else if spells(word_at(chars, head), "DIV") {
            let x: Operand = operand_at(line, first);
            let y: Operand = operand_at(line, second);
            let program: Vec<Instruction> = vec![Instruction::Div(x, y)];
            assert(block_view(program@) =~= seq![SpecInstruction::Div(x@, y@)]);
            Ok(program)
        } else if spells(word_at(chars, head), "SET") {
            match parse_int(word_at(chars, second)) {
                Some(v) => {
                    let name: String = line.substring_char(first.0, first.1).to_owned();
                    let program: Vec<Instruction> = vec![Instruction::SetVar(name, v)];
                    assert(block_view(program@) =~= seq![SpecInstruction::SetVar(w[1], v)]);
                    Ok(program)
                },
                None => Err(Fault::InvalidNumber),
            }
        } else {
            Ok(no_instructions())
        }
    } else {
        Ok(no_instructions())
    }
}

/// Reads one line of text as the instructions it stands for: none
/// where the line is no instruction, and a fault where the number of a
/// `PUSH` or `SET` line is no signed 32-bit integer.
pub fn parse_instruction(line: &str) -> (r: Result<Vec<Instruction>, Fault>)
    ensures
        program_view(r) == line_instructions(line@),
{
    let chars: Vec<char> = chars_of(line);
    let parts: Vec<(usize, usize)> = split_words(chars.as_slice());
    parse_words(line, chars.as_slice(), &parts)
}

// ----------------------------------------------------------------------
// Blocks
// ----------------------------------------------------------------------

/// Which block the lines being read belong to.
#[derive(Debug, Clone, Copy, PartialEq, Eq, Structural)]
pub enum BlockMode {
    /// No block is open.
    Outside,
    /// An `IF` block is open.
    InIf,
    /// An `ELSE` block is open.
    InElse,
}

/// How far the reading of a program has come: the program so far, what
/// the two kinds of block have gathered, and which of them is open.
pub struct Loader {
    pub program: Seq<SpecInstruction>,
    pub if_block: Seq<SpecInstruction>,
    pub else_block: Seq<SpecInstruction>,
    pub mode: BlockMode,
}

/// Whether the first word of `line` is `word`.
pub open spec fn starts_with_word(line: Seq<char>, word: Seq<char>) -> bool {
    words(line).len() > 0 && words(line)[0] == word
}

/// The loader before any line has been read.
pub open spec fn loader_start() -> Loader {
    Loader {
        program: Seq::empty(),
        if_block: Seq::empty(),
        else_block: Seq::empty(),
        mode: BlockMode::Outside,
    }
}

/// What one more line does to the loader.
///
/// `IF` and `ELSE` open their block, and close the other one; neither is an
/// instruction. With no block open, the line's instructions join the
/// program. With a block open they join that block, and a line that starts
/// with `ENDIF` then closes it: an `IF` block joins the program as an `If`
/// that carries both blocks as gathered so far, an `ELSE` block as an
/// `Else`; both blocks are emptied.
pub open spec fn feed(st: Loader, line: Seq<char>) -> Result<Loader, Fault> {
    if starts_with_word(line, "IF"@) {
        Ok(Loader { mode: BlockMode::InIf, ..st })
    } else if starts_with_word(line, "ELSE"@) {
        Ok(Loader { mode: BlockMode::InElse, ..st })
    } else {
        match line_instructions(line) {
            Err(fault) => Err(fault),
            Ok(found) => {
                let closes: bool = starts_with_word(line, "ENDIF"@);
                match st.mode {
                    BlockMode::Outside => Ok(Loader { program: st.program + found, ..st }),
                    BlockMode::InIf => if closes {
                        Ok(
                            Loader {
                                program: st.program.push(
                                    SpecInstruction::If(st.if_block + found, st.else_block),
                                ),
                                ..loader_start()
                            },
                        )
                    } else {
                        Ok(Loader { if_block: st.if_block + found, ..st })
                    },
                    BlockMode::InElse => if closes {
                        Ok(
                            Loader {
                                program: st.program.push(
                                    SpecInstruction::Else(st.else_block + found),
                                ),
                                ..loader_start()
                            },
                        )
                    } else {
                        Ok(Loader { else_block: st.else_block + found, ..st })
                    },
                }
            },
        }
    }
}

/// The loader after all of `lines` have been read, or the fault of the
/// first line that has one.
pub open spec fn loader_after(lines: Seq<Seq<char>>) -> Result<Loader, Fault>
    decreases lines.len(),
{
    if lines.len() == 0 {
        Ok(loader_start())
    } else {
        match loader_after(lines.drop_last()) {
            Ok(st) => feed(st, lines.last()),
            Err(fault) => Err(fault),
        }
    }
}

/// The program that `lines` stand for. What a block that is never closed
/// has gathered is not part of it.
pub open spec fn program_of(lines: Seq<Seq<char>>) -> Result<Seq<SpecInstruction>, Fault> {
    match loader_after(lines) {
        Ok(st) => Ok(st.program),
        Err(fault) => Err(fault),
    }
}

/// The lines of a program as sequences of characters.
pub open spec fn lines_view(lines: Seq<String>) -> Seq<Seq<char>> {
    Seq::new(lines.len(), |k: int| lines[k]@)
}

impl VM {
    /// Reads the lines of a program as its instructions.
    ///
    /// Lines that are no instruction are passed over. The only lines that
    /// make the reading fail are `PUSH` and `SET` lines whose number is
    /// no signed 32-bit integer; the first of them decides.
    pub fn load_program(lines: &Vec<String>) -> (r: Result<Vec<Instruction>, Fault>)
        ensures
            program_view(r) == program_of(lines_view(lines@)),
    {
        let ghost text: Seq<Seq<char>> = lines_view(lines@);
        let mut program: Vec<Instruction> = Vec::new();
        let mut if_block: Vec<Instruction> = Vec::new();
        let mut else_block: Vec<Instruction> = Vec::new();
        let mut mode: BlockMode = BlockMode::Outside;
        let mut i: usize = 0;
        assert(text.take(0) =~= Seq::<Seq<char>>::empty());
        assert(block_view(program@) =~= Seq::<SpecInstruction>::empty());
        while i < lines.len()
            invariant
                i <= lines.len(),
                text == lines_view(lines@),
                loader_after(text.take(i as int)) == Ok::<Loader, Fault>(
                    Loader {
                        program: block_view(program@),
                        if_block: block_view(if_block@),
                        else_block: block_view(else_block@),
                        mode: mode,
                    },
                ),
            decreases lines.len() - i,
        {
            let line: &str = lines[i].as_str();
            let chars: Vec<char> = chars_of(line);
            let parts: Vec<(usize, usize)> = split_words(chars.as_slice());
            let ghost before: Loader = Loader {
                program: block_view(program@),
                if_block: block_view(if_block@),
                else_block: block_view(else_block@),
                mode: mode,
            };
            proof {
                assert(text.take(i + 1).drop_last() =~= text.take(i as int));
                assert(text.take(i + 1).last() == line@);
                assert(words(line@).len() == parts.len());
                if parts.len() > 0 {
                    assert(span_ints(parts@)[0] == spans(line@)[0]);
                    assert(words(line@)[0] == line@.subrange(parts[0].0 as int, parts[0].1 as int));
                }
            }
            if parts.len() > 0 && spells(word_at(chars.as_slice(), parts[0]), "IF") {
                mode = BlockMode::InIf;
            } else if parts.len() > 0 && spells(word_at(chars.as_slice(), parts[0]), "ELSE") {
                mode = BlockMode::InElse;
            } else {
                let mut found: Vec<Instruction> = match parse_words(
                    line,
                    chars.as_slice(),
                    &parts,
                ) {
                    Ok(found) => found,
                    Err(fault) => {
                        proof {
                            lemma_loader_fault(text, i + 1);
                        }
                        return Err(fault);
                    },
                };
                let closes: bool = parts.len() > 0 && spells(
                    word_at(chars.as_slice(), parts[0]),
                    "ENDIF",
                );
                match mode {
                    BlockMode::Outside => {
                        proof {
                            lemma_block_view_concat(program@, found@);
                        }
                        program.append(&mut found);
                    },
                    BlockMode::InIf => {
                        proof {
                            lemma_block_view_concat(if_block@, found@);
                        }
                        if_block.append(&mut found);
                        if closes {
                            let branch: Instruction = Instruction::If(if_block, else_block);
                            proof {
                                lemma_block_view_push(program@, branch);
                            }
                            program.push(branch);
                            if_block = no_instructions();
                            else_block = no_instructions();
                            mode = BlockMode::Outside;
                        }
                    },
                    BlockMode::InElse => {
                        proof {
                            lemma_block_view_concat(else_block@, found@);
                        }
                        else_block.append(&mut found);
                        if closes {
                            let branch: Instruction = Instruction::Else(else_block);
                            proof {
                                lemma_block_view_push(program@, branch);
                            }
                            program.push(branch);
                            if_block = no_instructions();
                            else_block = no_instructions();
                            mode = BlockMode::Outside;
                        }
                    },
                }
            }
            i += 1;
        }
        assert(text.take(i as int) =~= text);
        Ok(program)
    }
}

/// A fault among the first `n` lines is the fault of the whole.
proof fn lemma_loader_fault(lines: Seq<Seq<char>>, n: int)
    requires
        0 <= n <= lines.len(),
        loader_after(lines.take(n)) is Err,
    ensures
        loader_after(lines) == loader_after(lines.take(n)),
    decreases lines.len() - n,
{
    if n == lines.len() {
        assert(lines.take(n) =~= lines);
    } else {
        assert(lines.take(n + 1).drop_last() =~= lines.take(n));
        lemma_loader_fault(lines, n + 1);
    }
}

} // verus!
