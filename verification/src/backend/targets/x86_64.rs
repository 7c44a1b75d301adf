use vstd::prelude::*;
use vstd::string::StringExecFns;

use crate::assembly::{append, decimal, decimal_string};
use crate::backend::constant::{Const, binop_value, in_range};
use crate::backend::target::Target;
use crate::backend::allocator::{Allocator, lemma_colors_below, lemma_same_allocation, lemma_same_allocation_refl};
use crate::ir::types::{binary_operands, BlockId, Instruction as IrInstruction, Operation, TIRBlock, TIRFunction, Terminator, VirtualRegister};
use crate::resolver::FunctionId;

verus! {

/// A condition code of `setcc`.
#[derive(Debug, Clone, Copy, PartialEq, Eq, Structural)]
pub enum CC {
    E,
    NE,
    G,
    GE,
    L,
    LE,
}

/// The suffix of condition code `c`.
pub open spec fn cc_name(c: CC) -> Seq<char> {
    match c {
        CC::E => seq!['e'],
        CC::NE => seq!['n', 'e'],
        CC::G => seq!['g'],
        CC::GE => seq!['g', 'e'],
        CC::L => seq!['l'],
        CC::LE => seq!['l', 'e'],
    }
}

impl CC {
    /// The suffix of this condition code.
    pub fn name(&self) -> (s: &'static str)
        ensures
            s@ == cc_name(*self),
    {
        match self {
            CC::E => {
                proof {
                    reveal_strlit("e");
                }
                "e"
            },
            CC::NE => {
                proof {
                    reveal_strlit("ne");
                }
                "ne"
            },
            CC::G => {
                proof {
                    reveal_strlit("g");
                }
                "g"
            },
            CC::GE => {
                proof {
                    reveal_strlit("ge");
                }
                "ge"
            },
            CC::L => {
                proof {
                    reveal_strlit("l");
                }
                "l"
            },
            CC::LE => {
                proof {
                    reveal_strlit("le");
                }
                "le"
            },
        }
    }
}

/// A 64-bit general-purpose register.
#[derive(Debug, Clone, Copy, PartialEq, Eq, Structural)]
pub enum Reg {
    Rax,
    Rbx,
    Rcx,
    Rdx,
    Rsi,
    Rdi,
    Rbp,
    Rsp,
    R8,
    R9,
    R10,
    R11,
    R12,
    R13,
    R14,
    R15,
}

/// The assembler name of `r`.
pub open spec fn reg_name(r: Reg) -> Seq<char> {
    match r {
        Reg::Rax => seq!['r', 'a', 'x'],
        Reg::Rbx => seq!['r', 'b', 'x'],
        Reg::Rcx => seq!['r', 'c', 'x'],
        Reg::Rdx => seq!['r', 'd', 'x'],
        Reg::Rsi => seq!['r', 's', 'i'],
        Reg::Rdi => seq!['r', 'd', 'i'],
        Reg::Rbp => seq!['r', 'b', 'p'],
        Reg::Rsp => seq!['r', 's', 'p'],
        Reg::R8 => seq!['r', '8'],
        Reg::R9 => seq!['r', '9'],
        Reg::R10 => seq!['r', '1', '0'],
        Reg::R11 => seq!['r', '1', '1'],
        Reg::R12 => seq!['r', '1', '2'],
        Reg::R13 => seq!['r', '1', '3'],
        Reg::R14 => seq!['r', '1', '4'],
        Reg::R15 => seq!['r', '1', '5'],
    }
}

/// The name of the low byte of `r`.
pub open spec fn low_byte_name(r: Reg) -> Seq<char> {
    match r {
        Reg::Rax => seq!['a', 'l'],
        Reg::Rbx => seq!['b', 'l'],
        Reg::Rcx => seq!['c', 'l'],
        Reg::Rdx => seq!['d', 'l'],
        Reg::Rsi => seq!['s', 'i', 'l'],
        Reg::Rdi => seq!['d', 'i', 'l'],
        Reg::Rbp => seq!['b', 'p', 'l'],
        Reg::Rsp => seq!['s', 'p', 'l'],
        Reg::R8 => seq!['r', '8', 'b'],
        Reg::R9 => seq!['r', '9', 'b'],
        Reg::R10 => seq!['r', '1', '0', 'b'],
        Reg::R11 => seq!['r', '1', '1', 'b'],
        Reg::R12 => seq!['r', '1', '2', 'b'],
        Reg::R13 => seq!['r', '1', '3', 'b'],
        Reg::R14 => seq!['r', '1', '4', 'b'],
        Reg::R15 => seq!['r', '1', '5', 'b'],
    }
}

/// The register that holds colour `c` (of the nine colours in use).
pub open spec fn reg_of(c: usize) -> Reg {
    if c == 0 { Reg::Rax } else if c == 1 { Reg::Rdi } else if c == 2 { Reg::R8 } else if c == 3 { Reg::R9 }
    else if c == 4 { Reg::R10 } else if c == 5 { Reg::R11 } else if c == 6 { Reg::R12 } else if c == 7 { Reg::R13 }
    else { Reg::R14 }
}

/// Registers a callee may overwrite, which a caller saves around a call.
pub open spec fn caller_saved(r: Reg) -> bool {
    r == Reg::Rax || r == Reg::Rdi || r == Reg::R8 || r == Reg::R9 || r == Reg::R10 || r == Reg::R11
}

impl Reg {
    /// The assembler name of this register.
    pub fn name(&self) -> (s: &'static str)
        ensures
            s@ == reg_name(*self),
    {
        match self {
            Reg::Rax => {
                proof {
                    reveal_strlit("rax");
                }
                "rax"
            },
            Reg::Rbx => {
                proof {
                    reveal_strlit("rbx");
                }
                "rbx"
            },
            Reg::Rcx => {
                proof {
                    reveal_strlit("rcx");
                }
                "rcx"
            },
            Reg::Rdx => {
                proof {
                    reveal_strlit("rdx");
                }
                "rdx"
            },
            Reg::Rsi => {
                proof {
                    reveal_strlit("rsi");
                }
                "rsi"
            },
            Reg::Rdi => {
                proof {
                    reveal_strlit("rdi");
                }
                "rdi"
            },
            Reg::Rbp => {
                proof {
                    reveal_strlit("rbp");
                }
                "rbp"
            },
            Reg::Rsp => {
                proof {
                    reveal_strlit("rsp");
                }
                "rsp"
            },
            Reg::R8 => {
                proof {
                    reveal_strlit("r8");
                }
                "r8"
            },
            Reg::R9 => {
                proof {
                    reveal_strlit("r9");
                }
                "r9"
            },
            Reg::R10 => {
                proof {
                    reveal_strlit("r10");
                }
                "r10"
            },
            Reg::R11 => {
                proof {
                    reveal_strlit("r11");
                }
                "r11"
            },
            Reg::R12 => {
                proof {
                    reveal_strlit("r12");
                }
                "r12"
            },
            Reg::R13 => {
                proof {
                    reveal_strlit("r13");
                }
                "r13"
            },
            Reg::R14 => {
                proof {
                    reveal_strlit("r14");
                }
                "r14"
            },
            Reg::R15 => {
                proof {
                    reveal_strlit("r15");
                }
                "r15"
            },
        }
    }

    /// The name of the low byte of this register.
    pub fn low_byte(&self) -> (s: String)
        ensures
            s@ == low_byte_name(*self),
    {
        match self {
            Reg::Rax => {
                proof {
                    reveal_strlit("al");
                }
                String::from_str("al")
            },
            Reg::Rbx => {
                proof {
                    reveal_strlit("bl");
                }
                String::from_str("bl")
            },
            Reg::Rcx => {
                proof {
                    reveal_strlit("cl");
                }
                String::from_str("cl")
            },
            Reg::Rdx => {
                proof {
                    reveal_strlit("dl");
                }
                String::from_str("dl")
            },
            Reg::Rsi => {
                proof {
                    reveal_strlit("sil");
                }
                String::from_str("sil")
            },
            Reg::Rdi => {
                proof {
                    reveal_strlit("dil");
                }
                String::from_str("dil")
            },
            Reg::Rbp => {
                proof {
                    reveal_strlit("bpl");
                }
                String::from_str("bpl")
            },
            Reg::Rsp => {
                proof {
                    reveal_strlit("spl");
                }
                String::from_str("spl")
            },
            Reg::R8 => {
                proof {
                    reveal_strlit("r8b");
                }
                String::from_str("r8b")
            },
            Reg::R9 => {
                proof {
                    reveal_strlit("r9b");
                }
                String::from_str("r9b")
            },
            Reg::R10 => {
                proof {
                    reveal_strlit("r10b");
                }
                String::from_str("r10b")
            },
            Reg::R11 => {
                proof {
                    reveal_strlit("r11b");
                }
                String::from_str("r11b")
            },
            Reg::R12 => {
                proof {
                    reveal_strlit("r12b");
                }
                String::from_str("r12b")
            },
            Reg::R13 => {
                proof {
                    reveal_strlit("r13b");
                }
                String::from_str("r13b")
            },
            Reg::R14 => {
                proof {
                    reveal_strlit("r14b");
                }
                String::from_str("r14b")
            },
            Reg::R15 => {
                proof {
                    reveal_strlit("r15b");
                }
                String::from_str("r15b")
            },
        }
    }

    /// The register that holds colour `c`.
    pub fn from_color(c: usize) -> (r: Reg)
        requires
            c < 9,
        ensures
            r == reg_of(c),
    {
        match c {
            0 => Reg::Rax,
            1 => Reg::Rdi,
            2 => Reg::R8,
            3 => Reg::R9,
            4 => Reg::R10,
            5 => Reg::R11,
            6 => Reg::R12,
            7 => Reg::R13,
            _ => Reg::R14,
        }
    }

    /// This register is caller-saved.
    pub fn is_caller_saved(&self) -> (b: bool)
        ensures
            b == caller_saved(*self),
    {
        match self {
            Reg::Rax | Reg::Rdi | Reg::R8 | Reg::R9 | Reg::R10 | Reg::R11 => true,
            _ => false,
        }
    }
}

/// A memory operand: `offset` bytes below the address in `reg`.
#[derive(Debug, Clone, Copy, PartialEq, Eq, Structural)]
pub struct MemRef {
    pub reg: Reg,
    pub offset: usize,
}

/// A source operand.
#[derive(Debug, Clone, Copy, PartialEq, Eq, Structural)]
pub enum Arg64 {
    Reg(Reg),
    Unsigned(usize),
    Mem(MemRef),
}

/// The operands of a two-operand arithmetic or comparison instruction.
#[derive(Debug, Clone, Copy, PartialEq, Eq, Structural)]
pub enum BinArgs {
    ToReg(Reg, Arg64),
    ToMem(MemRef, Arg64),
}

/// The operands of a move.
#[derive(Debug, Clone, Copy, PartialEq, Eq, Structural)]
pub enum MovArgs {
    ToReg(Reg, Arg64),
    ToMem(MemRef, Arg64),
}

/// One line of x86-64 assembly.
#[derive(Debug)]
pub enum Instruction {
    Directive(String, String),
    Label(String),
    Syscall,
    Push(Reg),
    Pop(Reg),
    Mov(MovArgs),
    Add(BinArgs),
    Sub(BinArgs),
    Mul(BinArgs),
    Cmp(BinArgs),
    And(BinArgs),
    Or(BinArgs),
    Xor(BinArgs),
    Jz(String),
    Jnz(String),
    Je(String),
    Jne(String),
    Jg(String),
    Jge(String),
    Jl(String),
    Jle(String),
    Jmp(String),
    Setcc(CC, Reg),
    Call(String),
    Ret,
}

/// A line of assembly as a value of specifications, its texts as sequences.
pub enum XI {
    Directive(Seq<char>, Seq<char>),
    Label(Seq<char>),
    Syscall,
    Push(Reg),
    Pop(Reg),
    Mov(MovArgs),
    Add(BinArgs),
    Sub(BinArgs),
    Mul(BinArgs),
    Cmp(BinArgs),
    And(BinArgs),
    Or(BinArgs),
    Xor(BinArgs),
    Jz(Seq<char>),
    Jnz(Seq<char>),
    Je(Seq<char>),
    Jne(Seq<char>),
    Jg(Seq<char>),
    Jge(Seq<char>),
    Jl(Seq<char>),
    Jle(Seq<char>),
    Jmp(Seq<char>),
    Setcc(CC, Reg),
    Call(Seq<char>),
    Ret,
}

impl View for Instruction {
    type V = XI;

    open spec fn view(&self) -> XI {
        match *self {
            Instruction::Directive(d, v) => XI::Directive(d@, v@),
            Instruction::Label(l) => XI::Label(l@),
            Instruction::Syscall => XI::Syscall,
            Instruction::Push(r) => XI::Push(r),
            Instruction::Pop(r) => XI::Pop(r),
            Instruction::Mov(m) => XI::Mov(m),
            Instruction::Add(b) => XI::Add(b),
            Instruction::Sub(b) => XI::Sub(b),
            Instruction::Mul(b) => XI::Mul(b),
            Instruction::Cmp(b) => XI::Cmp(b),
            Instruction::And(b) => XI::And(b),
            Instruction::Or(b) => XI::Or(b),
            Instruction::Xor(b) => XI::Xor(b),
            Instruction::Jz(l) => XI::Jz(l@),
            Instruction::Jnz(l) => XI::Jnz(l@),
            Instruction::Je(l) => XI::Je(l@),
            Instruction::Jne(l) => XI::Jne(l@),
            Instruction::Jg(l) => XI::Jg(l@),
            Instruction::Jge(l) => XI::Jge(l@),
            Instruction::Jl(l) => XI::Jl(l@),
            Instruction::Jle(l) => XI::Jle(l@),
            Instruction::Jmp(l) => XI::Jmp(l@),
            Instruction::Setcc(c, r) => XI::Setcc(c, r),
            Instruction::Call(l) => XI::Call(l@),
            Instruction::Ret => XI::Ret,
        }
    }
}

/// The views of a sequence of lines.
pub open spec fn xis(s: Seq<Instruction>) -> Seq<XI> {
    s.map_values(|i: Instruction| i@)
}

// The text of each line, as the assembler reads it.

pub open spec fn mem_text(m: MemRef) -> Seq<char> {
    seq!['['] + reg_name(m.reg) + seq!['-'] + decimal(m.offset as nat) + seq![']']
}

pub open spec fn arg_text(a: Arg64) -> Seq<char> {
    match a {
        Arg64::Reg(r) => reg_name(r),
        Arg64::Unsigned(v) => decimal(v as nat),
        Arg64::Mem(m) => mem_text(m),
    }
}

pub open spec fn bin_text(b: BinArgs) -> Seq<char> {
    match b {
        BinArgs::ToReg(r, a) => reg_name(r) + seq![',', ' '] + arg_text(a),
        BinArgs::ToMem(m, a) => mem_text(m) + seq![',', ' '] + arg_text(a),
    }
}

pub open spec fn mov_text(m: MovArgs) -> Seq<char> {
    seq!['m', 'o', 'v', ' '] + match m {
        MovArgs::ToReg(r, a) => reg_name(r) + seq![',', ' '] + arg_text(a),
        MovArgs::ToMem(mem, a) => mem_text(mem) + seq![',', ' '] + arg_text(a),
    }
}

/// Four spaces, the indentation of an instruction.
pub open spec fn indent() -> Seq<char> {
    seq![' ', ' ', ' ', ' ']
}

pub open spec fn x_text(i: XI) -> Seq<char> {
    match i {
        XI::Directive(d, v) => d + seq![' '] + v,
        XI::Label(l) => l + seq![':'],
        XI::Syscall => indent() + seq!['s', 'y', 's', 'c', 'a', 'l', 'l'],
        XI::Push(r) => indent() + seq!['p', 'u', 's', 'h', ' '] + reg_name(r),
        XI::Pop(r) => indent() + seq!['p', 'o', 'p', ' '] + reg_name(r),
        XI::Mov(m) => indent() + mov_text(m),
        XI::Add(b) => indent() + seq!['a', 'd', 'd', ' '] + bin_text(b),
        XI::Sub(b) => indent() + seq!['s', 'u', 'b', ' '] + bin_text(b),
        XI::Mul(b) => indent() + seq!['i', 'm', 'u', 'l', ' '] + bin_text(b),
        XI::Cmp(b) => indent() + seq!['c', 'm', 'p', ' '] + bin_text(b),
        XI::And(b) => indent() + seq!['a', 'n', 'd', ' '] + bin_text(b),
        XI::Or(b) => indent() + seq!['o', 'r', ' '] + bin_text(b),
        XI::Xor(b) => indent() + seq!['x', 'o', 'r', ' '] + bin_text(b),
        XI::Jz(l) => indent() + seq!['j', 'z', ' '] + l,
        XI::Jnz(l) => indent() + seq!['j', 'n', 'z', ' '] + l,
        XI::Je(l) => indent() + seq!['j', 'e', ' '] + l,
        XI::Jne(l) => indent() + seq!['j', 'n', 'e', ' '] + l,
        XI::Jg(l) => indent() + seq!['j', 'g', ' '] + l,
        XI::Jge(l) => indent() + seq!['j', 'g', 'e', ' '] + l,
        XI::Jl(l) => indent() + seq!['j', 'l', ' '] + l,
        XI::Jle(l) => indent() + seq!['j', 'l', 'e', ' '] + l,
        XI::Jmp(l) => indent() + seq!['j', 'm', 'p', ' '] + l,
        XI::Setcc(c, r) => indent() + seq!['s', 'e', 't'] + cc_name(c) + seq![' '] + low_byte_name(r),
        XI::Call(l) => indent() + seq!['c', 'a', 'l', 'l', ' '] + l,
        XI::Ret => indent() + seq!['r', 'e', 't'],
    }
}

impl MemRef {
    /// The assembler text of this operand.
    pub fn text(&self) -> (s: String)
        ensures
            s@ == mem_text(*self),
    {
        proof {
            reveal_strlit("[");
            reveal_strlit("-");
            reveal_strlit("]");
        }
        let mut s = String::from_str("[");
        append(&mut s, self.reg.name());
        append(&mut s, "-");
        let n = decimal_string(self.offset);
        append(&mut s, n.as_str());
        append(&mut s, "]");
        proof {
            assert(s@ =~= mem_text(*self));
        }
        s
    }
}

impl Arg64 {
    /// The assembler text of this operand.
    pub fn text(&self) -> (s: String)
        ensures
            s@ == arg_text(*self),
    {
        match self {
            Arg64::Reg(r) => String::from_str(r.name()),
            Arg64::Unsigned(v) => decimal_string(*v),
            Arg64::Mem(m) => m.text(),
        }
    }
}

impl BinArgs {
    /// The assembler text of these operands.
    pub fn text(&self) -> (s: String)
        ensures
            s@ == bin_text(*self),
    {
        proof {
            reveal_strlit(", ");
        }
        let (mut s, a) = match self {
            BinArgs::ToReg(r, a) => (String::from_str(r.name()), a),
            BinArgs::ToMem(m, a) => (m.text(), a),
        };
        append(&mut s, ", ");
        let t = a.text();
        append(&mut s, t.as_str());
        proof {
            assert(s@ =~= bin_text(*self));
        }
        s
    }
}

impl MovArgs {
    /// The assembler text of this move.
    pub fn text(&self) -> (s: String)
        ensures
            s@ == mov_text(*self),
    {
        proof {
            reveal_strlit("mov ");
            reveal_strlit(", ");
        }
        let mut s = String::from_str("mov ");
        let a = match self {
            MovArgs::ToReg(r, a) => {
                append(&mut s, r.name());
                a
            },
            MovArgs::ToMem(m, a) => {
                let t = m.text();
                append(&mut s, t.as_str());
                a
            },
        };
        append(&mut s, ", ");
        let t = a.text();
        append(&mut s, t.as_str());
        proof {
            assert(s@ =~= mov_text(*self));
        }
        s
    }
}

/// `head` followed by `tail`.
fn joined(head: &str, tail: &str) -> (s: String)
    ensures
        s@ == head@ + tail@,
{
    let mut s = String::from_str(head);
    append(&mut s, tail);
    s
}

impl Instruction {
    /// The assembler text of this line.
    pub fn text(&self) -> (s: String)
        ensures
            s@ == x_text(self@),
    {
        proof {
            reveal_strlit("    ");
        }
        match self {
            Instruction::Directive(d, v) => {
                proof {
                    reveal_strlit(" ");
                }
                let mut s = d.clone();
                append(&mut s, " ");
                append(&mut s, v.as_str());
                proof {
                    assert(s@ =~= x_text(self@));
                }
                s
            },
            Instruction::Label(l) => {
                proof {
                    reveal_strlit(":");
                }
                let mut s = l.clone();
                append(&mut s, ":");
                s
            },
            Instruction::Syscall => {
                proof {
                    reveal_strlit("    syscall");
                }
                let s = String::from_str("    syscall");
                proof {
                    assert(s@ =~= x_text(self@));
                }
                s
            },
            Instruction::Ret => {
                proof {
                    reveal_strlit("    ret");
                }
                let s = String::from_str("    ret");
                proof {
                    assert(s@ =~= x_text(self@));
                }
                s
            },
            Instruction::Push(r) => {
                proof {
                    reveal_strlit("    push ");
                }
                let s = joined("    push ", r.name());
                proof {
                    assert(s@ =~= x_text(self@));
                }
                s
            },
            Instruction::Pop(r) => {
                proof {
                    reveal_strlit("    pop ");
                }
                let s = joined("    pop ", r.name());
                proof {
                    assert(s@ =~= x_text(self@));
                }
                s
            },
            Instruction::Mov(m) => {
                let t = m.text();
                let s = joined("    ", t.as_str());
                proof {
                    assert(s@ =~= x_text(self@));
                }
                s
            },
            Instruction::Add(b) => {
                proof {
                    reveal_strlit("    add ");
                }
                let t = b.text();
                let s = joined("    add ", t.as_str());
                proof {
                    assert(s@ =~= x_text(self@));
                }
                s
            },
            Instruction::Sub(b) => {
                proof {
                    reveal_strlit("    sub ");
                }
                let t = b.text();
                let s = joined("    sub ", t.as_str());
                proof {
                    assert(s@ =~= x_text(self@));
                }
                s
            },
            Instruction::Mul(b) => {
                proof {
                    reveal_strlit("    imul ");
                }
                let t = b.text();
                let s = joined("    imul ", t.as_str());
                proof {
                    assert(s@ =~= x_text(self@));
                }
                s
            },
            Instruction::Cmp(b) => {
                proof {
                    reveal_strlit("    cmp ");
                }
                let t = b.text();
                let s = joined("    cmp ", t.as_str());
                proof {
                    assert(s@ =~= x_text(self@));
                }
                s
            },
            Instruction::And(b) => {
                proof {
                    reveal_strlit("    and ");
                }
                let t = b.text();
                let s = joined("    and ", t.as_str());
                proof {
                    assert(s@ =~= x_text(self@));
                }
                s
            },
            Instruction::Or(b) => {
                proof {
                    reveal_strlit("    or ");
                }
                let t = b.text();
                let s = joined("    or ", t.as_str());
                proof {
                    assert(s@ =~= x_text(self@));
                }
                s
            },
            Instruction::Xor(b) => {
                proof {
                    reveal_strlit("    xor ");
                }
                let t = b.text();
                let s = joined("    xor ", t.as_str());
                proof {
                    assert(s@ =~= x_text(self@));
                }
                s
            },
            Instruction::Jz(l) => {
                proof {
                    reveal_strlit("    jz ");
                }
                let s = joined("    jz ", l.as_str());
                proof {
                    assert(s@ =~= x_text(self@));
                }
                s
            },
            Instruction::Jnz(l) => {
                proof {
                    reveal_strlit("    jnz ");
                }
                let s = joined("    jnz ", l.as_str());
                proof {
                    assert(s@ =~= x_text(self@));
                }
                s
            },
            Instruction::Je(l) => {
                proof {
                    reveal_strlit("    je ");
                }
                let s = joined("    je ", l.as_str());
                proof {
                    assert(s@ =~= x_text(self@));
                }
                s
            },
            Instruction::Jne(l) => {
                proof {
                    reveal_strlit("    jne ");
                }
                let s = joined("    jne ", l.as_str());
                proof {
                    assert(s@ =~= x_text(self@));
                }
                s
            },
            Instruction::Jg(l) => {
                proof {
                    reveal_strlit("    jg ");
                }
                let s = joined("    jg ", l.as_str());
                proof {
                    assert(s@ =~= x_text(self@));
                }
                s
            },
            Instruction::Jge(l) => {
                proof {
                    reveal_strlit("    jge ");
                }
                let s = joined("    jge ", l.as_str());
                proof {
                    assert(s@ =~= x_text(self@));
                }
                s
            },
            Instruction::Jl(l) => {
                proof {
                    reveal_strlit("    jl ");
                }
                let s = joined("    jl ", l.as_str());
                proof {
                    assert(s@ =~= x_text(self@));
                }
                s
            },
            Instruction::Jle(l) => {
                proof {
                    reveal_strlit("    jle ");
                }
                let s = joined("    jle ", l.as_str());
                proof {
                    assert(s@ =~= x_text(self@));
                }
                s
            },
            Instruction::Jmp(l) => {
                proof {
                    reveal_strlit("    jmp ");
                }
                let s = joined("    jmp ", l.as_str());
                proof {
                    assert(s@ =~= x_text(self@));
                }
                s
            },
            Instruction::Call(l) => {
                proof {
                    reveal_strlit("    call ");
                }
                let s = joined("    call ", l.as_str());
                proof {
                    assert(s@ =~= x_text(self@));
                }
                s
            },
            Instruction::Setcc(c, r) => {
                proof {
                    reveal_strlit("    set");
                    reveal_strlit(" ");
                }
                let mut s = joined("    set", c.name());
                append(&mut s, " ");
                let b = r.low_byte();
                append(&mut s, b.as_str());
                proof {
                    assert(s@ =~= x_text(self@));
                }
                s
            },
        }
    }
}


// ---------------------------------------------------------------------------------------------
// The code emitted for a function, as a function of its register allocation.

/// The number of the syscall that ends the process.
pub const EXIT_SYSCALL: usize = 60;

/// The size of a stack slot.
pub const WORD_SIZE: usize = 8;

/// The position of the last occurrence of `vr` among the first `n` of `s`, or -1.
pub open spec fn last_pos(s: Seq<VirtualRegister>, vr: VirtualRegister, n: int) -> int
    decreases n,
{
    if n <= 0 {
        -1
    } else if s[n - 1] == vr {
        n - 1
    } else {
        last_pos(s, vr, n - 1)
    }
}

/// The stack slot of a spilled value: the slots below the frame pointer hold the spilled values
/// in order, one word each.
pub open spec fn spill_slot(a: Allocator, vr: VirtualRegister) -> Option<MemRef> {
    let p = last_pos(a.spilled_regs(), vr, a.spilled_regs().len() as int);
    if p >= 0 {
        Some(MemRef { reg: Reg::Rbp, offset: ((p + 1) * 8) as usize })
    } else {
        None
    }
}

/// Where the value `vr` is read from: its register, or its stack slot.
pub open spec fn source(a: Allocator, vr: VirtualRegister) -> Option<Arg64> {
    match a.loc(vr) {
        Some(c) => Some(Arg64::Reg(reg_of(c))),
        None => match spill_slot(a, vr) {
            Some(m) => Some(Arg64::Mem(m)),
            None => None,
        },
    }
}

/// Brings `vr` into a register: its own, or `scratch` after saving `scratch` and loading the
/// slot. Gives the code, the register and whether `scratch` was used.
pub open spec fn fetch(a: Allocator, vr: VirtualRegister, scratch: Reg) -> Option<(Seq<XI>, Reg, bool)> {
    match a.loc(vr) {
        Some(c) => Some((Seq::empty(), reg_of(c), false)),
        None => match spill_slot(a, vr) {
            Some(m) => Some((seq![XI::Push(scratch), XI::Mov(MovArgs::ToReg(scratch, Arg64::Mem(m)))], scratch, true)),
            None => None,
        },
    }
}

/// Writes a scratch register back to the slot of `vr` and restores it, where it was used.
pub open spec fn restore(a: Allocator, reg: Reg, used: bool, vr: VirtualRegister) -> Option<Seq<XI>> {
    if used {
        match spill_slot(a, vr) {
            Some(m) => Some(seq![XI::Mov(MovArgs::ToMem(m, Arg64::Reg(reg))), XI::Pop(reg)]),
            None => None,
        }
    } else {
        Some(Seq::empty())
    }
}

/// Stores `value` to the register of a result. Spilled results are not yet given stack slots of
/// their own: a result without a register is written to `[rbp-0]`, the word of the saved frame
/// pointer, which no later read of the result looks at.
pub open spec fn store_dst(dst: Option<usize>, value: Arg64) -> XI {
    match dst {
        Some(c) => XI::Mov(MovArgs::ToReg(reg_of(c), value)),
        None => XI::Mov(MovArgs::ToMem(MemRef { reg: Reg::Rbp, offset: 0 }, value)),
    }
}

/// The arithmetic and logic instructions.
#[derive(Debug, Clone, Copy, PartialEq, Eq, Structural)]
pub enum BinKind {
    Add,
    Sub,
    Mul,
    And,
    Or,
}

pub open spec fn bin_xi(k: BinKind, b: BinArgs) -> XI {
    match k {
        BinKind::Add => XI::Add(b),
        BinKind::Sub => XI::Sub(b),
        BinKind::Mul => XI::Mul(b),
        BinKind::And => XI::And(b),
        BinKind::Or => XI::Or(b),
    }
}

/// `dst = vr1 k vr2`: both operands in registers, the result stored, scratch registers restored.
pub open spec fn binop_code(a: Allocator, k: BinKind, dst: Option<usize>, vr1: VirtualRegister, vr2: VirtualRegister) -> Option<Seq<XI>> {
    match fetch(a, vr1, Reg::Rax) {
        Some((c1, r1, s1)) => match fetch(a, vr2, Reg::R8) {
            Some((c2, r2, s2)) => match restore(a, Reg::R8, s2, vr2) {
                Some(t2) => match restore(a, Reg::Rax, s1, vr1) {
                    Some(t1) => Some(c1 + c2 + seq![bin_xi(k, BinArgs::ToReg(r1, Arg64::Reg(r2))), store_dst(dst, Arg64::Reg(r1))] + t2 + t1),
                    None => None,
                },
                None => None,
            },
            None => None,
        },
        None => None,
    }
}

/// `dst = vr1 cc vr2`: the result register cleared, the operands compared, the flag set.
pub open spec fn compare_code(a: Allocator, vr1: VirtualRegister, vr2: VirtualRegister, dst: VirtualRegister, cc: CC) -> Option<Seq<XI>> {
    match fetch(a, vr1, Reg::Rax) {
        Some((c1, r1, s1)) => match fetch(a, vr2, Reg::R8) {
            Some((c2, r2, s2)) => match fetch(a, dst, Reg::R9) {
                Some((c3, rd, s3)) => match restore(a, Reg::R9, s3, dst) {
                    Some(t3) => match restore(a, Reg::R8, s2, vr2) {
                        Some(t2) => match restore(a, Reg::Rax, s1, vr1) {
                            Some(t1) => Some(c1 + c2 + c3 + seq![
                                XI::Xor(BinArgs::ToReg(rd, Arg64::Reg(rd))),
                                XI::Cmp(BinArgs::ToReg(r1, Arg64::Reg(r2))),
                                XI::Setcc(cc, rd),
                            ] + t3 + t2 + t1),
                            None => None,
                        },
                        None => None,
                    },
                    None => None,
                },
                None => None,
            },
            None => None,
        },
        None => None,
    }
}

/// The colours in use below `n`, in increasing order.
pub open spec fn colors_below(a: Allocator, n: nat) -> Seq<usize>
    decreases n,
{
    if n == 0 {
        Seq::empty()
    } else {
        let c = (n - 1) as usize;
        colors_below(a, (n - 1) as nat) + if a.colors_used().contains(c) { seq![c] } else { Seq::empty() }
    }
}

/// Pushes of the caller-saved registers among the colours `cs[..n]`, in order.
pub open spec fn save_code(cs: Seq<usize>, n: int) -> Seq<XI>
    decreases n,
{
    if n <= 0 {
        Seq::empty()
    } else {
        save_code(cs, n - 1) + if caller_saved(reg_of(cs[n - 1])) { seq![XI::Push(reg_of(cs[n - 1]))] } else { Seq::empty() }
    }
}

/// Pops of the caller-saved registers among the colours `cs[i..]`, last first.
pub open spec fn restore_code(cs: Seq<usize>, i: int) -> Seq<XI>
    decreases cs.len() - i,
{
    if i < 0 || i >= cs.len() {
        Seq::empty()
    } else {
        restore_code(cs, i + 1) + if caller_saved(reg_of(cs[i])) { seq![XI::Pop(reg_of(cs[i]))] } else { Seq::empty() }
    }
}

/// The registers that carry the first four arguments of a call.
pub open spec fn arg_reg(k: int) -> Reg {
    if k == 0 { Reg::Rbx } else if k == 1 { Reg::Rcx } else if k == 2 { Reg::Rdx } else { Reg::Rsi }
}

/// Moves of the first `n` arguments into their argument registers.
pub open spec fn args_code(a: Allocator, vrs: Seq<VirtualRegister>, n: int) -> Option<Seq<XI>>
    decreases n,
{
    if n <= 0 {
        Some(Seq::empty())
    } else {
        match args_code(a, vrs, n - 1) {
            Some(code) => match source(a, vrs[n - 1]) {
                Some(src) => Some(code.push(XI::Mov(MovArgs::ToReg(arg_reg(n - 1), src)))),
                None => None,
            },
            None => None,
        }
    }
}

/// A call: caller-saved registers in use pushed, arguments moved, the call, the registers
/// popped, the result (in r15) stored. More than four arguments are not supported.
pub open spec fn call_code(a: Allocator, f: FunctionId, vrs: Seq<VirtualRegister>, dst: Option<usize>) -> Option<Seq<XI>> {
    let cs = colors_below(a, 9);
    if vrs.len() > 4 {
        None
    } else {
        match args_code(a, vrs, vrs.len() as int) {
            Some(moves) => Some(save_code(cs, cs.len() as int) + moves + seq![XI::Call(f.name@)] + restore_code(cs, 0) + seq![
                store_dst(dst, Arg64::Reg(Reg::R15)),
            ]),
            None => None,
        }
    }
}

/// The value of a boolean constant.
pub open spec fn bool_value(b: bool) -> usize {
    if b { 1 } else { 0 }
}

/// The code of one SSA instruction.
pub open spec fn ir_code(a: Allocator, instr: IrInstruction) -> Option<Seq<XI>> {
    let dst = a.loc(instr.dest);
    match instr.op {
        Operation::ConstInt(n) => Some(seq![store_dst(dst, Arg64::Unsigned(n))]),
        Operation::ConstBool(b) => Some(seq![store_dst(dst, Arg64::Unsigned(bool_value(b)))]),
        Operation::Add(x, y) => binop_code(a, BinKind::Add, dst, x, y),
        Operation::Sub(x, y) => binop_code(a, BinKind::Sub, dst, x, y),
        Operation::Mul(x, y) => binop_code(a, BinKind::Mul, dst, x, y),
        Operation::And(x, y) => binop_code(a, BinKind::And, dst, x, y),
        Operation::Or(x, y) => binop_code(a, BinKind::Or, dst, x, y),
        Operation::Eq(x, y) => compare_code(a, x, y, instr.dest, CC::E),
        Operation::Lt(x, y) => compare_code(a, x, y, instr.dest, CC::L),
        Operation::Leq(x, y) => compare_code(a, x, y, instr.dest, CC::LE),
        Operation::Gt(x, y) => compare_code(a, x, y, instr.dest, CC::G),
        Operation::Geq(x, y) => compare_code(a, x, y, instr.dest, CC::GE),
        Operation::Neq(x, y) => compare_code(a, x, y, instr.dest, CC::NE),
        Operation::Call(f, vrs) => call_code(a, f, vrs@, dst),
    }
}

/// The label of block `id` of function `fname`.
pub open spec fn block_label(fname: Seq<char>, id: BlockId) -> Seq<char> {
    fname + seq!['_', 'b'] + decimal(id.0 as nat)
}

/// The parameters of the last block labelled `l`.
pub open spec fn params_of(bs: Seq<TIRBlock>, l: BlockId, n: int) -> Option<Seq<VirtualRegister>>
    decreases n,
{
    if n <= 0 {
        None
    } else if bs[n - 1].label == l {
        Some(bs[n - 1].params@)
    } else {
        params_of(bs, l, n - 1)
    }
}

/// Moves of the values an edge passes into the parameters of its target, pairing the first
/// `n`.
pub open spec fn edge_code(a: Allocator, args: Seq<VirtualRegister>, params: Seq<VirtualRegister>, n: int) -> Option<Seq<XI>>
    decreases n,
{
    if n <= 0 {
        Some(Seq::empty())
    } else {
        match edge_code(a, args, params, n - 1) {
            Some(code) => match fetch(a, args[n - 1], Reg::Rax) {
                Some((c1, r1, _)) => match fetch(a, params[n - 1], Reg::Rax) {
                    Some((c2, r2, _)) => Some(code + c1 + c2 + seq![XI::Mov(MovArgs::ToReg(r2, Arg64::Reg(r1)))]),
                    None => None,
                },
                None => None,
            },
            None => None,
        }
    }
}

/// The moves along an edge to `target`, as many as the shorter of the values and parameters.
pub open spec fn edge_moves(a: Allocator, bs: Seq<TIRBlock>, target: BlockId, args: Seq<VirtualRegister>) -> Option<Seq<XI>> {
    match params_of(bs, target, bs.len() as int) {
        Some(ps) => edge_code(a, args, ps, if args.len() < ps.len() { args.len() as int } else { ps.len() as int }),
        None => None,
    }
}

/// The test of a branch condition against zero.
pub open spec fn test_code(a: Allocator, cond: VirtualRegister) -> Option<XI> {
    match a.loc(cond) {
        Some(c) => Some(XI::Cmp(BinArgs::ToReg(reg_of(c), Arg64::Unsigned(0)))),
        None => match spill_slot(a, cond) {
            Some(m) => Some(XI::Cmp(BinArgs::ToMem(m, Arg64::Unsigned(0)))),
            None => None,
        },
    }
}

/// The code of a terminator of a block of function `fname`.
pub open spec fn term_code(a: Allocator, fname: Seq<char>, t: Terminator, bs: Seq<TIRBlock>) -> Option<Seq<XI>> {
    match t {
        Terminator::Void => None,
        Terminator::Exit(vr) => match source(a, vr) {
            Some(src) => Some(seq![
                XI::Mov(MovArgs::ToReg(Reg::Rdi, src)),
                XI::Mov(MovArgs::ToReg(Reg::Rax, Arg64::Unsigned(EXIT_SYSCALL))),
                XI::Syscall,
            ]),
            None => None,
        },
        Terminator::Return(vr) => match source(a, vr) {
            Some(src) => Some(seq![
                XI::Mov(MovArgs::ToReg(Reg::R15, src)),
                XI::Mov(MovArgs::ToReg(Reg::Rsp, Arg64::Reg(Reg::Rbp))),
                XI::Pop(Reg::Rbp),
                XI::Ret,
            ]),
            None => None,
        },
        Terminator::Branch { target, params } => match edge_moves(a, bs, target, params@) {
            Some(moves) => Some(moves.push(XI::Jmp(block_label(fname, target)))),
            None => None,
        },
        Terminator::ConditionalBranch { cond, then_target, then_params, else_target, else_params } => match edge_moves(
            a,
            bs,
            then_target,
            then_params@,
        ) {
            Some(m1) => match edge_moves(a, bs, else_target, else_params@) {
                Some(m2) => match test_code(a, cond) {
                    Some(test) => Some(m1 + m2 + seq![
                        test,
                        XI::Jne(block_label(fname, then_target)),
                        XI::Jmp(block_label(fname, else_target)),
                    ]),
                    None => None,
                },
                None => None,
            },
            None => None,
        },
    }
}

/// The code of the first `n` instructions of `is`.
pub open spec fn instrs_code(a: Allocator, is: Seq<IrInstruction>, n: int) -> Option<Seq<XI>>
    decreases n,
{
    if n <= 0 {
        Some(Seq::empty())
    } else {
        match instrs_code(a, is, n - 1) {
            Some(code) => match ir_code(a, is[n - 1]) {
                Some(c) => Some(code + c),
                None => None,
            },
            None => None,
        }
    }
}

/// The code of a block: its label, its instructions, its terminator.
pub open spec fn block_code(a: Allocator, fname: Seq<char>, b: TIRBlock, bs: Seq<TIRBlock>) -> Option<Seq<XI>> {
    match instrs_code(a, b.instructions@, b.instructions@.len() as int) {
        Some(body) => match term_code(a, fname, b.terminator, bs) {
            Some(t) => Some(seq![XI::Label(block_label(fname, b.label))] + body + t),
            None => None,
        },
        None => None,
    }
}

/// The code of the first `n` blocks of `bs`.
pub open spec fn blocks_code(a: Allocator, fname: Seq<char>, bs: Seq<TIRBlock>, n: int) -> Option<Seq<XI>>
    decreases n,
{
    if n <= 0 {
        Some(Seq::empty())
    } else {
        match blocks_code(a, fname, bs, n - 1) {
            Some(code) => match block_code(a, fname, bs[n - 1], bs) {
                Some(c) => Some(code + c),
                None => None,
            },
            None => None,
        }
    }
}

/// Moves of the first `n` parameters from their argument registers to their homes.
pub open spec fn params_code(a: Allocator, ps: Seq<VirtualRegister>, n: int) -> Option<Seq<XI>>
    decreases n,
{
    if n <= 0 {
        Some(Seq::empty())
    } else {
        match params_code(a, ps, n - 1) {
            Some(code) => match a.loc(ps[n - 1]) {
                Some(c) => Some(code.push(XI::Mov(MovArgs::ToReg(reg_of(c), Arg64::Reg(arg_reg(n - 1)))))),
                None => match spill_slot(a, ps[n - 1]) {
                    Some(m) => Some(code.push(XI::Mov(MovArgs::ToMem(m, Arg64::Reg(arg_reg(n - 1)))))),
                    None => None,
                },
            },
            None => None,
        }
    }
}

/// The stack space for the spilled values.
pub open spec fn frame_size(a: Allocator) -> usize {
    (a.spilled_regs().len() * 8) as usize
}

/// The code of a function: label, frame set-up, parameters moved from the argument registers
/// (up to four), the blocks in order, and a return.
pub open spec fn function_code(a: Allocator, f: TIRFunction) -> Option<Seq<XI>> {
    let ps = f.params@;
    let np = if ps.len() < 4 { ps.len() as int } else { 4 };
    match params_code(a, ps, np) {
        Some(pc) => match blocks_code(a, f.name@, f.blocks@, f.blocks@.len() as int) {
            Some(bc) => Some(seq![
                XI::Label(f.name@),
                XI::Push(Reg::Rbp),
                XI::Mov(MovArgs::ToReg(Reg::Rbp, Arg64::Reg(Reg::Rsp))),
                XI::Sub(BinArgs::ToReg(Reg::Rsp, Arg64::Unsigned(frame_size(a)))),
            ] + pc + bc + seq![
                XI::Mov(MovArgs::ToReg(Reg::Rsp, Arg64::Reg(Reg::Rbp))),
                XI::Pop(Reg::Rbp),
                XI::Ret,
            ]),
            None => None,
        },
        None => None,
    }
}

/// What emitting a function needs of its allocation: it is well formed, uses at most the nine
/// registers that colours map to, and its stack frame fits the address space.
pub open spec fn emittable(a: Allocator) -> bool {
    &&& a.wf()
    &&& a.num_registers() <= 9
    &&& a.spilled_regs().len() * 8 <= usize::MAX
}


// ---------------------------------------------------------------------------------------------
// Emitting code.

/// `alloc` describes the allocation `a0`, which code can be emitted for.
pub open spec fn tracks(alloc: Allocator, a0: Allocator) -> bool {
    alloc.wf() && alloc.same_allocation(&a0) && emittable(a0)
}

/// The colour of `vr`.
fn locate(alloc: &mut Allocator, vr: VirtualRegister, Ghost(a0): Ghost<Allocator>) -> (r: Option<usize>)
    requires
        tracks(*old(alloc), a0),
    ensures
        tracks(*final(alloc), a0),
        r == a0.loc(vr),
        r is Some ==> r.unwrap() < 9,
{
    let ghost before = *alloc;
    let r = alloc.location(vr);
    proof {
        lemma_same_allocation_refl(&a0);
        lemma_same_allocation(&*alloc, &before, &a0);
        lemma_same_allocation(&before, &a0, &a0);
        lemma_colors_below(&a0);
    }
    r
}

/// The stack slot of `vr`, where it was spilled.
fn slot(alloc: &Allocator, vr: VirtualRegister, Ghost(a0): Ghost<Allocator>) -> (r: Option<MemRef>)
    requires
        tracks(*alloc, a0),
    ensures
        r == spill_slot(a0, vr),
{
    proof {
        lemma_same_allocation_refl(&a0);
        lemma_same_allocation(alloc, &a0, &a0);
    }
    let spilled = alloc.spilled();
    let ghost s = spilled@;
    let mut i: usize = spilled.len();
    while i > 0
        invariant
            0 <= i <= s.len(),
            s == spilled@,
            s == a0.spilled_regs(),
            s.len() * 8 <= usize::MAX,
            last_pos(s, vr, s.len() as int) == last_pos(s, vr, i as int),
        decreases i,
    {
        if spilled[i - 1] == vr {
            return Some(MemRef { reg: Reg::Rbp, offset: i * WORD_SIZE });
        }
        i = i - 1;
    }
    None
}

/// The colours in use, in increasing order.
fn sorted_colors(alloc: &Allocator, Ghost(a0): Ghost<Allocator>) -> (r: Vec<usize>)
    requires
        tracks(*alloc, a0),
    ensures
        r@ == colors_below(a0, 9),
        forall|k: int| 0 <= k < r@.len() ==> #[trigger] r@[k] < 9,
{
    proof {
        lemma_same_allocation_refl(&a0);
        lemma_same_allocation(alloc, &a0, &a0);
    }
    let used = alloc.used();
    let mut r: Vec<usize> = Vec::new();
    let mut c: usize = 0;
    while c < 9
        invariant
            0 <= c <= 9,
            used@.to_set() == a0.colors_used(),
            r@ == colors_below(a0, c as nat),
            forall|k: int| 0 <= k < r@.len() ==> #[trigger] r@[k] < c,
        decreases 9 - c,
    {
        let mut found = false;
        let mut j: usize = 0;
        while j < used.len()
            invariant
                0 <= j <= used@.len(),
                found == (exists|q: int| 0 <= q < j && used@[q] == c),
            decreases used@.len() - j,
        {
            if used[j] == c {
                found = true;
            }
            j = j + 1;
        }
        proof {
            if found {
                let q = choose|q: int| 0 <= q < used@.len() && used@[q] == c;
                assert(used@.to_set().contains(used@[q]));
            }
            if a0.colors_used().contains(c) {
                assert(used@.to_set().contains(c));
                assert(used@.contains(c));
            }
        }
        if found {
            r.push(c);
        }
        proof {
            assert(colors_below(a0, (c + 1) as nat) =~= colors_below(a0, c as nat) + if a0.colors_used().contains(c) {
                seq![c]
            } else {
                Seq::<usize>::empty()
            });
        }
        c = c + 1;
    }
    r
}

/// The label of block `id` of function `fname`.
fn label_text(fname: &String, id: BlockId) -> (s: String)
    ensures
        s@ == block_label(fname@, id),
{
    proof {
        reveal_strlit("_b");
    }
    let mut s = fname.clone();
    append(&mut s, "_b");
    let n = decimal_string(id.0);
    append(&mut s, n.as_str());
    proof {
        assert(s@ =~= block_label(fname@, id));
    }
    s
}

/// The parameters of the last block labelled `l`.
fn block_params(blocks: &Vec<TIRBlock>, l: BlockId) -> (r: Option<&Vec<VirtualRegister>>)
    ensures
        match r {
            Some(p) => params_of(blocks@, l, blocks@.len() as int) == Some(p@),
            None => params_of(blocks@, l, blocks@.len() as int) is None,
        },
{
    let mut i: usize = blocks.len();
    while i > 0
        invariant
            0 <= i <= blocks@.len(),
            params_of(blocks@, l, blocks@.len() as int) == params_of(blocks@, l, i as int),
        decreases i,
    {
        if blocks[i - 1].label.0 == l.0 {
            return Some(&blocks[i - 1].params);
        }
        i = i - 1;
    }
    None
}

/// Emits x86-64 assembly for functions whose registers have been allocated.
pub struct X86_64 {
    instructions: Vec<Instruction>,
}

impl X86_64 {
    /// The lines emitted so far.
    pub closed spec fn lines(&self) -> Seq<XI> {
        xis(self.instructions@)
    }

    /// An emitter with no lines.
    pub fn new() -> (t: Self)
        ensures
            t.lines() == Seq::<XI>::empty(),
    {
        let t = X86_64 { instructions: Vec::new() };
        proof {
            assert(t.lines() =~= Seq::<XI>::empty());
        }
        t
    }

    fn push(&mut self, i: Instruction)
        ensures
            final(self).lines() == old(self).lines().push(i@),
    {
        self.instructions.push(i);
        proof {
            assert(self.lines() =~= old(self).lines().push(i@));
        }
    }

    fn find_or_spill(&mut self, vr: VirtualRegister, alloc: &mut Allocator, scratch: Reg, Ghost(a0): Ghost<Allocator>) -> (r: (Reg, bool))
        requires
            tracks(*old(alloc), a0),
            fetch(a0, vr, scratch) is Some,
        ensures
            tracks(*final(alloc), a0),
            match fetch(a0, vr, scratch) {
                Some((code, reg, used)) => final(self).lines() == old(self).lines() + code && r == (reg, used),
                None => false,
            },
    {
        match locate(alloc, vr, Ghost(a0)) {
            Some(c) => {
                proof {
                    assert(self.lines() + Seq::<XI>::empty() =~= self.lines());
                }
                (Reg::from_color(c), false)
            },
            None => {
                let m = slot(alloc, vr, Ghost(a0));
                match m {
                    Some(mem) => {
                        self.push(Instruction::Push(scratch));
                        self.push(Instruction::Mov(MovArgs::ToReg(scratch, Arg64::Mem(mem))));
                        proof {
                            assert(self.lines() =~= old(self).lines() + seq![XI::Push(scratch), XI::Mov(MovArgs::ToReg(scratch, Arg64::Mem(mem)))]);
                        }
                        (scratch, true)
                    },
                    None => {
                        assert(false);
                        (scratch, true)
                    },
                }
            },
        }
    }

    fn restore_if_spilled(&mut self, reg: Reg, spilled: bool, alloc: &Allocator, vr: VirtualRegister, Ghost(a0): Ghost<Allocator>)
        requires
            tracks(*alloc, a0),
            restore(a0, reg, spilled, vr) is Some,
        ensures
            final(self).lines() == old(self).lines() + restore(a0, reg, spilled, vr).unwrap(),
    {
        if spilled {
            match slot(alloc, vr, Ghost(a0)) {
                Some(mem) => {
                    self.push(Instruction::Mov(MovArgs::ToMem(mem, Arg64::Reg(reg))));
                    self.push(Instruction::Pop(reg));
                    proof {
                        assert(self.lines() =~= old(self).lines() + seq![XI::Mov(MovArgs::ToMem(mem, Arg64::Reg(reg))), XI::Pop(reg)]);
                    }
                },
                None => {
                    assert(false);
                },
            }
        } else {
            proof {
                assert(self.lines() + Seq::<XI>::empty() =~= self.lines());
            }
        }
    }

    /// Appends `store_dst(dst, value)` (see there: spilled results have no slot yet).
    fn store_dst(&mut self, dst: Option<usize>, value: Arg64)
        requires
            dst is Some ==> dst.unwrap() < 9,
        ensures
            final(self).lines() == old(self).lines().push(store_dst(dst, value)),
    {
        let mov = match dst {
            Some(c) => MovArgs::ToReg(Reg::from_color(c), value),
            None => MovArgs::ToMem(MemRef { reg: Reg::Rbp, offset: 0 }, value),
        };
        self.push(Instruction::Mov(mov));
    }
}


fn bin_instruction(k: BinKind, args: BinArgs) -> (i: Instruction)
    ensures
        i@ == bin_xi(k, args),
{
    match k {
        BinKind::Add => Instruction::Add(args),
        BinKind::Sub => Instruction::Sub(args),
        BinKind::Mul => Instruction::Mul(args),
        BinKind::And => Instruction::And(args),
        BinKind::Or => Instruction::Or(args),
    }
}

proof fn lemma_save_code_step(cs: Seq<usize>, n: int)
    requires
        0 <= n,
    ensures
        save_code(cs, n + 1) == save_code(cs, n) + if caller_saved(reg_of(cs[n])) {
            seq![XI::Push(reg_of(cs[n]))]
        } else {
            Seq::<XI>::empty()
        },
{
}

impl X86_64 {
    fn emit_binop(
        &mut self,
        dst: Option<usize>,
        vr1: VirtualRegister,
        vr2: VirtualRegister,
        alloc: &mut Allocator,
        kind: BinKind,
        Ghost(a0): Ghost<Allocator>,
    )
        requires
            tracks(*old(alloc), a0),
            dst is Some ==> dst.unwrap() < 9,
            binop_code(a0, kind, dst, vr1, vr2) is Some,
        ensures
            tracks(*final(alloc), a0),
            final(self).lines() == old(self).lines() + binop_code(a0, kind, dst, vr1, vr2).unwrap(),
    {
        let ghost l0 = self.lines();
        let (r1, spill1) = self.find_or_spill(vr1, alloc, Reg::Rax, Ghost(a0));
        let (r2, spill2) = self.find_or_spill(vr2, alloc, Reg::R8, Ghost(a0));
        self.push(bin_instruction(kind, BinArgs::ToReg(r1, Arg64::Reg(r2))));
        self.store_dst(dst, Arg64::Reg(r1));
        let ghost l1 = self.lines();
        self.restore_if_spilled(Reg::R8, spill2, alloc, vr2, Ghost(a0));
        self.restore_if_spilled(Reg::Rax, spill1, alloc, vr1, Ghost(a0));
        proof {
            let (c1, _, _) = fetch(a0, vr1, Reg::Rax).unwrap();
            let (c2, _, _) = fetch(a0, vr2, Reg::R8).unwrap();
            assert(l1 =~= l0 + c1 + c2 + seq![bin_xi(kind, BinArgs::ToReg(r1, Arg64::Reg(r2))), store_dst(dst, Arg64::Reg(r1))]);
            assert(self.lines() =~= l0 + binop_code(a0, kind, dst, vr1, vr2).unwrap());
        }
    }

    #[verifier::rlimit(50)]
    fn emit_cmp(
        &mut self,
        vr1: VirtualRegister,
        vr2: VirtualRegister,
        dst: VirtualRegister,
        alloc: &mut Allocator,
        cc: CC,
        Ghost(a0): Ghost<Allocator>,
    )
        requires
            tracks(*old(alloc), a0),
            compare_code(a0, vr1, vr2, dst, cc) is Some,
        ensures
            tracks(*final(alloc), a0),
            final(self).lines() == old(self).lines() + compare_code(a0, vr1, vr2, dst, cc).unwrap(),
    {
        let ghost l0 = self.lines();
        let (r1, spill1) = self.find_or_spill(vr1, alloc, Reg::Rax, Ghost(a0));
        let (r2, spill2) = self.find_or_spill(vr2, alloc, Reg::R8, Ghost(a0));
        let (dest, spill3) = self.find_or_spill(dst, alloc, Reg::R9, Ghost(a0));
        self.push(Instruction::Xor(BinArgs::ToReg(dest, Arg64::Reg(dest))));
        self.push(Instruction::Cmp(BinArgs::ToReg(r1, Arg64::Reg(r2))));
        self.push(Instruction::Setcc(cc, dest));
        let ghost l1 = self.lines();
        self.restore_if_spilled(Reg::R9, spill3, alloc, dst, Ghost(a0));
        self.restore_if_spilled(Reg::R8, spill2, alloc, vr2, Ghost(a0));
        self.restore_if_spilled(Reg::Rax, spill1, alloc, vr1, Ghost(a0));
        proof {
            let (c1, _, _) = fetch(a0, vr1, Reg::Rax).unwrap();
            let (c2, _, _) = fetch(a0, vr2, Reg::R8).unwrap();
            let (c3, _, _) = fetch(a0, dst, Reg::R9).unwrap();
            assert(l1 =~= l0 + c1 + c2 + c3 + seq![
                XI::Xor(BinArgs::ToReg(dest, Arg64::Reg(dest))),
                XI::Cmp(BinArgs::ToReg(r1, Arg64::Reg(r2))),
                XI::Setcc(cc, dest),
            ]);
            assert(self.lines() =~= l0 + compare_code(a0, vr1, vr2, dst, cc).unwrap());
        }
    }

    fn save_caller_regs(&mut self, alloc: &Allocator, Ghost(a0): Ghost<Allocator>)
        requires
            tracks(*alloc, a0),
        ensures
            final(self).lines() == old(self).lines() + save_code(colors_below(a0, 9), colors_below(a0, 9).len() as int),
    {
        let used = sorted_colors(alloc, Ghost(a0));
        let ghost l0 = self.lines();
        let mut i: usize = 0;
        while i < used.len()
            invariant
                0 <= i <= used@.len(),
                forall|k: int| 0 <= k < used@.len() ==> #[trigger] used@[k] < 9,
                self.lines() == l0 + save_code(used@, i as int),
            decreases used@.len() - i,
        {
            let r = Reg::from_color(used[i]);
            proof {
                lemma_save_code_step(used@, i as int);
            }
            if r.is_caller_saved() {
                self.push(Instruction::Push(r));
                proof {
                    assert(self.lines() =~= l0 + save_code(used@, i + 1));
                }
            } else {
                proof {
                    assert(l0 + save_code(used@, i as int) =~= l0 + save_code(used@, i + 1));
                }
            }
            i = i + 1;
        }
    }

    fn pop_caller_regs(&mut self, alloc: &Allocator, Ghost(a0): Ghost<Allocator>)
        requires
            tracks(*alloc, a0),
        ensures
            final(self).lines() == old(self).lines() + restore_code(colors_below(a0, 9), 0),
    {
        let used = sorted_colors(alloc, Ghost(a0));
        let ghost l0 = self.lines();
        let mut i: usize = used.len();
        proof {
            assert(l0 + restore_code(used@, used@.len() as int) =~= l0);
        }
        while i > 0
            invariant
                0 <= i <= used@.len(),
                forall|k: int| 0 <= k < used@.len() ==> #[trigger] used@[k] < 9,
                self.lines() == l0 + restore_code(used@, i as int),
            decreases i,
        {
            let r = Reg::from_color(used[i - 1]);
            if r.is_caller_saved() {
                self.push(Instruction::Pop(r));
                proof {
                    assert(self.lines() =~= l0 + restore_code(used@, i - 1));
                }
            } else {
                proof {
                    assert(l0 + restore_code(used@, i as int) =~= l0 + restore_code(used@, i - 1));
                }
            }
            i = i - 1;
        }
    }

    /// Moves of the arguments of a call into the argument registers.
    fn move_args(&mut self, vrs: &Vec<VirtualRegister>, alloc: &mut Allocator, Ghost(a0): Ghost<Allocator>)
        requires
            tracks(*old(alloc), a0),
            vrs@.len() <= 4,
            args_code(a0, vrs@, vrs@.len() as int) is Some,
        ensures
            tracks(*final(alloc), a0),
            final(self).lines() == old(self).lines() + args_code(a0, vrs@, vrs@.len() as int).unwrap(),
    {
        let ghost l0 = self.lines();
        proof {
            lemma_args_code_prefix(a0, vrs@, vrs@.len() as int);
            assert(l0 + Seq::<XI>::empty() =~= l0);
        }
        let mut k: usize = 0;
        while k < vrs.len()
            invariant
                0 <= k <= vrs@.len(),
                vrs@.len() <= 4,
                tracks(*alloc, a0),
                forall|j: int| j <= vrs@.len() ==> #[trigger] args_code(a0, vrs@, j) is Some,
                self.lines() == l0 + args_code(a0, vrs@, k as int).unwrap(),
            decreases vrs@.len() - k,
        {
            assert(args_code(a0, vrs@, k + 1) is Some);
            let reg = if k == 0 {
                Reg::Rbx
            } else if k == 1 {
                Reg::Rcx
            } else if k == 2 {
                Reg::Rdx
            } else {
                Reg::Rsi
            };
            let src = match locate(alloc, vrs[k], Ghost(a0)) {
                Some(c) => Arg64::Reg(Reg::from_color(c)),
                None => match slot(alloc, vrs[k], Ghost(a0)) {
                    Some(m) => Arg64::Mem(m),
                    None => {
                        assert(false);
                        Arg64::Unsigned(0)
                    },
                },
            };
            self.push(Instruction::Mov(MovArgs::ToReg(reg, src)));
            proof {
                assert(self.lines() =~= l0 + args_code(a0, vrs@, k + 1).unwrap());
            }
            k = k + 1;
        }
    }

    fn emit_call(&mut self, function: &FunctionId, vrs: &Vec<VirtualRegister>, dst: Option<usize>, alloc: &mut Allocator, Ghost(a0): Ghost<Allocator>)
        requires
            tracks(*old(alloc), a0),
            dst is Some ==> dst.unwrap() < 9,
            call_code(a0, *function, vrs@, dst) is Some,
        ensures
            tracks(*final(alloc), a0),
            final(self).lines() == old(self).lines() + call_code(a0, *function, vrs@, dst).unwrap(),
    {
        let ghost l0 = self.lines();
        self.save_caller_regs(alloc, Ghost(a0));
        let ghost l1 = self.lines();
        self.move_args(vrs, alloc, Ghost(a0));
        let ghost l2 = self.lines();
        self.push(Instruction::Call(function.name.clone()));
        self.pop_caller_regs(alloc, Ghost(a0));
        self.store_dst(dst, Arg64::Reg(Reg::R15));
        proof {
            assert(self.lines() =~= l0 + call_code(a0, *function, vrs@, dst).unwrap());
        }
    }
}

proof fn lemma_args_code_prefix(a: Allocator, vrs: Seq<VirtualRegister>, n: int)
    requires
        args_code(a, vrs, n) is Some,
    ensures
        forall|j: int| j <= n ==> #[trigger] args_code(a, vrs, j) is Some,
    decreases n,
{
    if n > 0 {
        lemma_args_code_prefix(a, vrs, n - 1);
    }
}


proof fn lemma_edge_code_prefix(a: Allocator, args: Seq<VirtualRegister>, params: Seq<VirtualRegister>, n: int)
    requires
        edge_code(a, args, params, n) is Some,
    ensures
        forall|j: int| j <= n ==> #[trigger] edge_code(a, args, params, j) is Some,
    decreases n,
{
    if n > 0 {
        lemma_edge_code_prefix(a, args, params, n - 1);
    }
}

proof fn lemma_instrs_code_prefix(a: Allocator, is: Seq<IrInstruction>, n: int)
    requires
        instrs_code(a, is, n) is Some,
    ensures
        forall|j: int| j <= n ==> #[trigger] instrs_code(a, is, j) is Some,
    decreases n,
{
    if n > 0 {
        lemma_instrs_code_prefix(a, is, n - 1);
    }
}

proof fn lemma_blocks_code_prefix(a: Allocator, fname: Seq<char>, bs: Seq<TIRBlock>, n: int)
    requires
        blocks_code(a, fname, bs, n) is Some,
    ensures
        forall|j: int| j <= n ==> #[trigger] blocks_code(a, fname, bs, j) is Some,
    decreases n,
{
    if n > 0 {
        lemma_blocks_code_prefix(a, fname, bs, n - 1);
    }
}

proof fn lemma_params_code_prefix(a: Allocator, ps: Seq<VirtualRegister>, n: int)
    requires
        params_code(a, ps, n) is Some,
    ensures
        forall|j: int| j <= n ==> #[trigger] params_code(a, ps, j) is Some,
    decreases n,
{
    if n > 0 {
        lemma_params_code_prefix(a, ps, n - 1);
    }
}

impl X86_64 {
    fn translate_ir(&mut self, instr: &IrInstruction, alloc: &mut Allocator, Ghost(a0): Ghost<Allocator>)
        requires
            tracks(*old(alloc), a0),
            ir_code(a0, *instr) is Some,
        ensures
            tracks(*final(alloc), a0),
            final(self).lines() == old(self).lines() + ir_code(a0, *instr).unwrap(),
    {
        let ghost l0 = self.lines();
        let dst = locate(alloc, instr.dest, Ghost(a0));
        match &instr.op {
            Operation::ConstInt(n) => {
                self.store_dst(dst, Arg64::Unsigned(*n));
                proof {
                    assert(self.lines() =~= l0 + ir_code(a0, *instr).unwrap());
                }
            },
            Operation::ConstBool(b) => {
                let v: usize = if *b {
                    1
                } else {
                    0
                };
                self.store_dst(dst, Arg64::Unsigned(v));
                proof {
                    assert(self.lines() =~= l0 + ir_code(a0, *instr).unwrap());
                }
            },
            Operation::Add(x, y) => self.emit_binop(dst, *x, *y, alloc, BinKind::Add, Ghost(a0)),
            Operation::Sub(x, y) => self.emit_binop(dst, *x, *y, alloc, BinKind::Sub, Ghost(a0)),
            Operation::Mul(x, y) => self.emit_binop(dst, *x, *y, alloc, BinKind::Mul, Ghost(a0)),
            Operation::And(x, y) => self.emit_binop(dst, *x, *y, alloc, BinKind::And, Ghost(a0)),
            Operation::Or(x, y) => self.emit_binop(dst, *x, *y, alloc, BinKind::Or, Ghost(a0)),
            Operation::Eq(x, y) => self.emit_cmp(*x, *y, instr.dest, alloc, CC::E, Ghost(a0)),
            Operation::Lt(x, y) => self.emit_cmp(*x, *y, instr.dest, alloc, CC::L, Ghost(a0)),
            Operation::Leq(x, y) => self.emit_cmp(*x, *y, instr.dest, alloc, CC::LE, Ghost(a0)),
            Operation::Gt(x, y) => self.emit_cmp(*x, *y, instr.dest, alloc, CC::G, Ghost(a0)),
            Operation::Geq(x, y) => self.emit_cmp(*x, *y, instr.dest, alloc, CC::GE, Ghost(a0)),
            Operation::Neq(x, y) => self.emit_cmp(*x, *y, instr.dest, alloc, CC::NE, Ghost(a0)),
            Operation::Call(function, vrs) => self.emit_call(function, vrs, dst, alloc, Ghost(a0)),
        }
    }

    /// Moves along an edge into the parameters of its target.
    fn emit_edge(&mut self, blocks: &Vec<TIRBlock>, target: BlockId, args: &Vec<VirtualRegister>, alloc: &mut Allocator, Ghost(a0): Ghost<Allocator>)
        requires
            tracks(*old(alloc), a0),
            edge_moves(a0, blocks@, target, args@) is Some,
        ensures
            tracks(*final(alloc), a0),
            final(self).lines() == old(self).lines() + edge_moves(a0, blocks@, target, args@).unwrap(),
    {
        let ghost l0 = self.lines();
        let params = match block_params(blocks, target) {
            Some(p) => p,
            None => {
                assert(false);
                return;
            },
        };
        let n = if args.len() < params.len() {
            args.len()
        } else {
            params.len()
        };
        proof {
            lemma_edge_code_prefix(a0, args@, params@, n as int);
            assert(l0 + Seq::<XI>::empty() =~= l0);
        }
        let mut k: usize = 0;
        while k < n
            invariant
                0 <= k <= n,
                n <= args@.len(),
                n <= params@.len(),
                tracks(*alloc, a0),
                forall|j: int| j <= n ==> #[trigger] edge_code(a0, args@, params@, j) is Some,
                self.lines() == l0 + edge_code(a0, args@, params@, k as int).unwrap(),
            decreases n - k,
        {
            assert(edge_code(a0, args@, params@, k + 1) is Some);
            let ghost lk = self.lines();
            let (r1, _) = self.find_or_spill(args[k], alloc, Reg::Rax, Ghost(a0));
            let (r2, _) = self.find_or_spill(params[k], alloc, Reg::Rax, Ghost(a0));
            self.push(Instruction::Mov(MovArgs::ToReg(r2, Arg64::Reg(r1))));
            proof {
                let (c1, _, _) = fetch(a0, args@[k as int], Reg::Rax).unwrap();
                let (c2, _, _) = fetch(a0, params@[k as int], Reg::Rax).unwrap();
                assert(self.lines() =~= lk + c1 + c2 + seq![XI::Mov(MovArgs::ToReg(r2, Arg64::Reg(r1)))]);
                assert(self.lines() =~= l0 + edge_code(a0, args@, params@, k + 1).unwrap());
            }
            k = k + 1;
        }
    }

    /// Where `vr` is read from.
    fn source_of(&mut self, vr: VirtualRegister, alloc: &mut Allocator, Ghost(a0): Ghost<Allocator>) -> (r: Arg64)
        requires
            tracks(*old(alloc), a0),
            source(a0, vr) is Some,
        ensures
            tracks(*final(alloc), a0),
            final(self).lines() == old(self).lines(),
            source(a0, vr) == Some(r),
    {
        match locate(alloc, vr, Ghost(a0)) {
            Some(c) => Arg64::Reg(Reg::from_color(c)),
            None => match slot(alloc, vr, Ghost(a0)) {
                Some(m) => Arg64::Mem(m),
                None => {
                    assert(false);
                    Arg64::Unsigned(0)
                },
            },
        }
    }

    fn translate_terminator(
        &mut self,
        function: &String,
        terminator: &Terminator,
        alloc: &mut Allocator,
        blocks: &Vec<TIRBlock>,
        Ghost(a0): Ghost<Allocator>,
    )
        requires
            tracks(*old(alloc), a0),
            term_code(a0, function@, *terminator, blocks@) is Some,
        ensures
            tracks(*final(alloc), a0),
            final(self).lines() == old(self).lines() + term_code(a0, function@, *terminator, blocks@).unwrap(),
    {
        let ghost l0 = self.lines();
        match terminator {
            Terminator::Void => {
                assert(false);
            },
            Terminator::Exit(vr) => {
                let src = self.source_of(*vr, alloc, Ghost(a0));
                self.push(Instruction::Mov(MovArgs::ToReg(Reg::Rdi, src)));
                self.push(Instruction::Mov(MovArgs::ToReg(Reg::Rax, Arg64::Unsigned(EXIT_SYSCALL))));
                self.push(Instruction::Syscall);
                proof {
                    assert(self.lines() =~= l0 + term_code(a0, function@, *terminator, blocks@).unwrap());
                }
            },
            Terminator::Return(vr) => {
                let src = self.source_of(*vr, alloc, Ghost(a0));
                self.push(Instruction::Mov(MovArgs::ToReg(Reg::R15, src)));
                self.push(Instruction::Mov(MovArgs::ToReg(Reg::Rsp, Arg64::Reg(Reg::Rbp))));
                self.push(Instruction::Pop(Reg::Rbp));
                self.push(Instruction::Ret);
                proof {
                    assert(self.lines() =~= l0 + term_code(a0, function@, *terminator, blocks@).unwrap());
                }
            },
            Terminator::Branch { target, params } => {
                let label = label_text(function, *target);
                self.emit_edge(blocks, *target, params, alloc, Ghost(a0));
                self.push(Instruction::Jmp(label));
            },
            Terminator::ConditionalBranch { cond, then_target, then_params, else_target, else_params } => {
                let then_label = label_text(function, *then_target);
                let else_label = label_text(function, *else_target);
                self.emit_edge(blocks, *then_target, then_params, alloc, Ghost(a0));
                self.emit_edge(blocks, *else_target, else_params, alloc, Ghost(a0));
                let test = match locate(alloc, *cond, Ghost(a0)) {
                    Some(c) => Instruction::Cmp(BinArgs::ToReg(Reg::from_color(c), Arg64::Unsigned(0))),
                    None => match slot(alloc, *cond, Ghost(a0)) {
                        Some(m) => Instruction::Cmp(BinArgs::ToMem(m, Arg64::Unsigned(0))),
                        None => {
                            assert(false);
                            Instruction::Ret
                        },
                    },
                };
                self.push(test);
                self.push(Instruction::Jne(then_label));
                self.push(Instruction::Jmp(else_label));
                proof {
                    assert(self.lines() =~= l0 + term_code(a0, function@, *terminator, blocks@).unwrap());
                }
            },
        }
    }

    fn emit_block(&mut self, function: &String, block: &TIRBlock, alloc: &mut Allocator, blocks: &Vec<TIRBlock>, Ghost(a0): Ghost<Allocator>)
        requires
            tracks(*old(alloc), a0),
            block_code(a0, function@, *block, blocks@) is Some,
        ensures
            tracks(*final(alloc), a0),
            final(self).lines() == old(self).lines() + block_code(a0, function@, *block, blocks@).unwrap(),
    {
        let ghost l0 = self.lines();
        let ghost is = block.instructions@;
        let label = label_text(function, block.label);
        self.push(Instruction::Label(label));
        let ghost l1 = self.lines();
        proof {
            lemma_instrs_code_prefix(a0, is, is.len() as int);
            assert(l1 + Seq::<XI>::empty() =~= l1);
        }
        let mut j: usize = 0;
        while j < block.instructions.len()
            invariant
                0 <= j <= is.len(),
                is == block.instructions@,
                tracks(*alloc, a0),
                forall|k: int| k <= is.len() ==> #[trigger] instrs_code(a0, is, k) is Some,
                self.lines() == l1 + instrs_code(a0, is, j as int).unwrap(),
            decreases is.len() - j,
        {
            assert(instrs_code(a0, is, j + 1) is Some);
            self.translate_ir(&block.instructions[j], alloc, Ghost(a0));
            proof {
                assert(self.lines() =~= l1 + instrs_code(a0, is, j + 1).unwrap());
            }
            j = j + 1;
        }
        self.translate_terminator(function, &block.terminator, alloc, blocks, Ghost(a0));
        proof {
            assert(self.lines() =~= l0 + block_code(a0, function@, *block, blocks@).unwrap());
        }
    }

    /// Moves the parameters of a function from the argument registers to their homes.
    fn emit_params(&mut self, params: &Vec<VirtualRegister>, alloc: &mut Allocator, Ghost(a0): Ghost<Allocator>)
        requires
            tracks(*old(alloc), a0),
            params_code(a0, params@, if params@.len() < 4 { params@.len() as int } else { 4 }) is Some,
        ensures
            tracks(*final(alloc), a0),
            final(self).lines() == old(self).lines() + params_code(a0, params@, if params@.len() < 4 { params@.len() as int } else { 4 }).unwrap(),
    {
        let ghost l0 = self.lines();
        let n = if params.len() < 4 {
            params.len()
        } else {
            4
        };
        proof {
            lemma_params_code_prefix(a0, params@, n as int);
            assert(l0 + Seq::<XI>::empty() =~= l0);
        }
        let mut k: usize = 0;
        while k < n
            invariant
                0 <= k <= n,
                n <= 4,
                n <= params@.len(),
                tracks(*alloc, a0),
                forall|j: int| j <= n ==> #[trigger] params_code(a0, params@, j) is Some,
                self.lines() == l0 + params_code(a0, params@, k as int).unwrap(),
            decreases n - k,
        {
            assert(params_code(a0, params@, k + 1) is Some);
            let reg = if k == 0 {
                Reg::Rbx
            } else if k == 1 {
                Reg::Rcx
            } else if k == 2 {
                Reg::Rdx
            } else {
                Reg::Rsi
            };
            match locate(alloc, params[k], Ghost(a0)) {
                Some(c) => {
                    self.push(Instruction::Mov(MovArgs::ToReg(Reg::from_color(c), Arg64::Reg(reg))));
                },
                None => match slot(alloc, params[k], Ghost(a0)) {
                    Some(m) => {
                        self.push(Instruction::Mov(MovArgs::ToMem(m, Arg64::Reg(reg))));
                    },
                    None => {
                        assert(false);
                    },
                },
            }
            proof {
                assert(self.lines() =~= l0 + params_code(a0, params@, k + 1).unwrap());
            }
            k = k + 1;
        }
    }

    /// Emits a function: label, frame, parameters, its blocks in order, and a final return.
    #[verifier::rlimit(50)]
    pub fn emit_function(&mut self, function: TIRFunction, allocator: Allocator)
        requires
            emittable(allocator),
            function_code(allocator, function) is Some,
        ensures
            final(self).lines() == old(self).lines() + function_code(allocator, function).unwrap(),
    {
        let ghost a0 = allocator;
        let ghost l0 = self.lines();
        let mut alloc = allocator;
        proof {
            lemma_same_allocation_refl(&a0);
        }
        let frame = alloc.spilled().len() * WORD_SIZE;
        self.push(Instruction::Label(function.name.clone()));
        self.push(Instruction::Push(Reg::Rbp));
        self.push(Instruction::Mov(MovArgs::ToReg(Reg::Rbp, Arg64::Reg(Reg::Rsp))));
        self.push(Instruction::Sub(BinArgs::ToReg(Reg::Rsp, Arg64::Unsigned(frame))));
        self.emit_params(&function.params, &mut alloc, Ghost(a0));
        let ghost l1 = self.lines();
        let ghost bs = function.blocks@;
        let ghost fname = function.name@;
        proof {
            lemma_blocks_code_prefix(a0, fname, bs, bs.len() as int);
            assert(l1 + Seq::<XI>::empty() =~= l1);
        }
        let mut i: usize = 0;
        while i < function.blocks.len()
            invariant
                0 <= i <= bs.len(),
                bs == function.blocks@,
                fname == function.name@,
                tracks(alloc, a0),
                forall|k: int| k <= bs.len() ==> #[trigger] blocks_code(a0, fname, bs, k) is Some,
                self.lines() == l1 + blocks_code(a0, fname, bs, i as int).unwrap(),
            decreases bs.len() - i,
        {
            assert(blocks_code(a0, fname, bs, i + 1) is Some);
            self.emit_block(&function.name, &function.blocks[i], &mut alloc, &function.blocks, Ghost(a0));
            proof {
                assert(self.lines() =~= l1 + blocks_code(a0, fname, bs, i + 1).unwrap());
            }
            i = i + 1;
        }
        self.push(Instruction::Mov(MovArgs::ToReg(Reg::Rsp, Arg64::Reg(Reg::Rbp))));
        self.push(Instruction::Pop(Reg::Rbp));
        self.push(Instruction::Ret);
        proof {
            assert(self.lines() =~= l0 + function_code(a0, function).unwrap());
        }
    }
}


/// The lines of a program's header: the entry point, which sets up a frame and calls `main`.
pub open spec fn header_lines() -> Seq<XI> {
    seq![
        XI::Directive(seq!['g', 'l', 'o', 'b', 'a', 'l'], seq!['_', 's', 't', 'a', 'r', 't']),
        XI::Label(seq!['_', 's', 't', 'a', 'r', 't']),
        XI::Push(Reg::Rbp),
        XI::Mov(MovArgs::ToReg(Reg::Rbp, Arg64::Reg(Reg::Rsp))),
        XI::Call(seq!['m', 'a', 'i', 'n']),
    ]
}

/// The text of lines, one per line.
pub open spec fn joined_text(ls: Seq<XI>) -> Seq<char>
    decreases ls.len(),
{
    if ls.len() == 0 {
        Seq::empty()
    } else if ls.len() == 1 {
        x_text(ls[0])
    } else {
        joined_text(ls.drop_last()) + seq!['\n'] + x_text(ls.last())
    }
}

impl Default for X86_64 {
    fn default() -> (t: Self)
        ensures
            t.lines() == Seq::<XI>::empty(),
    {
        X86_64::new()
    }
}

impl X86_64 {
    /// The lines emitted, to be rewritten in place.
    pub fn instructions_mut(&mut self) -> (r: &mut Vec<Instruction>)
        ensures
            xis(r@) == old(self).lines(),
            final(self).lines() == xis(final(r)@),
    {
        &mut self.instructions
    }
}

impl Target for X86_64 {
    open spec fn accepts(&self, function: TIRFunction, allocator: Allocator) -> bool {
        emittable(allocator) && function_code(allocator, function) is Some
    }

    open spec fn emitted(&self, after: Self, function: TIRFunction, allocator: Allocator) -> bool {
        after.lines() == self.lines() + function_code(allocator, function).unwrap()
    }

    open spec fn with_header(&self, after: Self) -> bool {
        after.lines() == self.lines() + header_lines()
    }

    open spec fn text_of(&self) -> Seq<char> {
        joined_text(self.lines())
    }

    /// Nine registers: rax, rdi and r8 to r14.
    fn num_gp_registers(&self) -> (n: usize)
        ensures
            n == 9,
    {
        9
    }

    fn asm_header(&mut self) {
        proof {
            reveal_strlit("global");
            reveal_strlit("_start");
            reveal_strlit("main");
        }
        let ghost l0 = self.lines();
        self.push(Instruction::Directive(String::from_str("global"), String::from_str("_start")));
        self.push(Instruction::Label(String::from_str("_start")));
        self.push(Instruction::Push(Reg::Rbp));
        self.push(Instruction::Mov(MovArgs::ToReg(Reg::Rbp, Arg64::Reg(Reg::Rsp))));
        self.push(Instruction::Call(String::from_str("main")));
        proof {
            assert("global"@ =~= seq!['g', 'l', 'o', 'b', 'a', 'l']);
            assert("_start"@ =~= seq!['_', 's', 't', 'a', 'r', 't']);
            assert("main"@ =~= seq!['m', 'a', 'i', 'n']);
            assert(self.lines() =~= l0 + header_lines());
        }
    }

    fn emit(&mut self, function: TIRFunction, allocator: Allocator) {
        self.emit_function(function, allocator);
    }

    fn assembly(self) -> (s: String) {
        proof {
            reveal_strlit("\n");
        }
        let ghost ls = self.lines();
        let mut s = String::new();
        let mut i: usize = 0;
        proof {
            assert(ls.take(0) =~= Seq::<XI>::empty());
        }
        while i < self.instructions.len()
            invariant
                0 <= i <= ls.len(),
                ls == xis(self.instructions@),
                s@ == joined_text(ls.take(i as int)),
            decreases ls.len() - i,
        {
            let ghost s0 = s@;
            if i > 0 {
                append(&mut s, "\n");
            }
            let ghost s1 = s@;
            let t = self.instructions[i].text();
            append(&mut s, t.as_str());
            proof {
                reveal_strlit("\n");
                assert("\n"@ =~= seq!['\n']);
                assert(t@ == x_text(ls[i as int]));
                assert(s@ == s1 + t@);
                assert(ls.take(i + 1).drop_last() =~= ls.take(i as int));
                assert(ls.take(i + 1).last() == ls[i as int]);
                if i == 0 {
                    assert(s@ =~= joined_text(ls.take(i + 1)));
                } else {
                    assert(s@ =~= joined_text(ls.take(i + 1)));
                }
            }
            i = i + 1;
        }
        proof {
            assert(ls.take(ls.len() as int) =~= ls);
        }
        s
    }
}

/// Whether `setcc` with condition `c` sets its byte after `cmp` of a register holding the
/// signed value `l` with one holding the signed value `r`: `e` when they are equal, `ne` when
/// not, `g`/`ge` when `l` is greater (or equal), `l`/`le` when it is less (or equal).
pub open spec fn setcc_holds(c: CC, l: int, r: int) -> bool {
    match c {
        CC::E => l == r,
        CC::NE => l != r,
        CC::G => l > r,
        CC::GE => l >= r,
        CC::L => l < r,
        CC::LE => l <= r,
    }
}

/// Each comparison `x op y` is emitted as the comparison code of its operands, in order, with
/// a condition code `c` whose `setcc` sets the result byte exactly when the comparison holds:
/// on any operand values that fit a signed 64-bit register, the byte is set exactly when
/// folding the comparison gives `true`.
pub proof fn lemma_comparison_condition(a: Allocator, d: VirtualRegister, op: Operation, x: VirtualRegister, y: VirtualRegister) -> (c: CC)
    requires
        op is Eq || op is Neq || op is Lt || op is Leq || op is Gt || op is Geq,
        binary_operands(op) == Some((x, y)),
    ensures
        ir_code(a, IrInstruction { dest: d, op }) == compare_code(a, x, y, d, c),
        forall|l: usize, r: usize| l <= 0x7fff_ffff_ffff_ffff && r <= 0x7fff_ffff_ffff_ffff
            ==> #[trigger] binop_value(op, Const::Int(l), Const::Int(r)) == Some(Const::Bool(setcc_holds(c, l as int, r as int))),
{
    match op {
        Operation::Eq(_, _) => CC::E,
        Operation::Neq(_, _) => CC::NE,
        Operation::Lt(_, _) => CC::L,
        Operation::Leq(_, _) => CC::LE,
        Operation::Gt(_, _) => CC::G,
        _ => CC::GE,
    }
}

/// The value that `add`, `sub`, `imul`, `and` or `or` leaves in its destination register when
/// that register holds `l` and the source holds `r` (for `add`, `sub` and `imul` as long as the
/// result fits the register).
pub open spec fn bin_result(k: BinKind, l: usize, r: usize) -> int {
    match k {
        BinKind::Add => l + r,
        BinKind::Sub => l - r,
        BinKind::Mul => l * r,
        BinKind::And => (l & r) as int,
        BinKind::Or => (l | r) as int,
    }
}

/// Each arithmetic or logical operation `x op y` is emitted as the two-operand code of its
/// operands, in order, with an instruction of a kind `k` that computes what the operation
/// computes: on integers whose result stays within `usize`, what folding gives; on booleans
/// held as `0` and `1`, a register holding `1` exactly when folding gives `true`.
pub proof fn lemma_arith_instruction(a: Allocator, d: VirtualRegister, op: Operation, x: VirtualRegister, y: VirtualRegister) -> (k: BinKind)
    requires
        op is Add || op is Sub || op is Mul || op is And || op is Or,
        binary_operands(op) == Some((x, y)),
    ensures
        ir_code(a, IrInstruction { dest: d, op }) == binop_code(a, k, a.loc(d), x, y),
        forall|l: usize, r: usize| (op is Add || op is Sub || op is Mul) && in_range(op, Const::Int(l), Const::Int(r))
            ==> #[trigger] binop_value(op, Const::Int(l), Const::Int(r)) == Some(Const::Int(bin_result(k, l, r) as usize))
                && 0 <= bin_result(k, l, r) <= usize::MAX,
        forall|p: bool, q: bool| (op is And || op is Or)
            ==> #[trigger] binop_value(op, Const::Bool(p), Const::Bool(q)) == Some(Const::Bool(bin_result(k, bool_value(p), bool_value(q)) == 1)),
{
    assert((1usize & 1usize) == 1usize && (1usize & 0usize) == 0usize && (0usize & 1usize) == 0usize && (0usize & 0usize) == 0usize) by (bit_vector);
    assert((1usize | 1usize) == 1usize && (1usize | 0usize) == 1usize && (0usize | 1usize) == 1usize && (0usize | 0usize) == 0usize) by (bit_vector);
    match op {
        Operation::Add(_, _) => BinKind::Add,
        Operation::Sub(_, _) => BinKind::Sub,
        Operation::Mul(_, _) => BinKind::Mul,
        Operation::And(_, _) => BinKind::And,
        _ => BinKind::Or,
    }
}

} // verus!
